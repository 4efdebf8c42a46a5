//! HTML forms on the wire: `application/x-www-form-urlencoded` written and read.
use vstd::prelude::*;
use vstd::string::*;
use vstd::utf8::*;
use crate::text::{
    cut, cutting_finds_the_first, joined, lemma_cut_front, lemma_pieces_of_joined, pieces, same,
    split, split_once,
};

verus! {

/// The text that `String::from_utf8_lossy` makes of bytes.
pub uninterp spec fn lossy_text(bytes: Seq<u8>) -> Seq<char>;

/// The text that bytes are read as: what they encode where they are UTF-8.
pub open spec fn text_of(bytes: Seq<u8>) -> Seq<char> {
    if valid_utf8(bytes) {
        decode_utf8(bytes)
    } else {
        lossy_text(bytes)
    }
}

/// `String::from_utf8_lossy` of the standard library. What it makes of a byte
/// sequence depends on the bytes alone, UTF-8 is decoded as it stands, and
/// where the bytes are not UTF-8 the replacement character U+FFFD stands in the
/// text. How many of them stand there, and for which bytes, is left unsaid.
#[verifier::external_body]
fn from_utf8_lossy(bytes: &[u8]) -> (r: String)
    ensures
        r@ == lossy_text(bytes@),
        valid_utf8(bytes@) ==> r@ == decode_utf8(bytes@),
        !valid_utf8(bytes@) ==> r@.contains('\u{FFFD}'),
{
    String::from_utf8_lossy(bytes).into_owned()
}

/// The text that the bytes are read as: bytes that are not UTF-8 leave a
/// replacement character in it.
pub fn read_text(bytes: &[u8]) -> (r: String)
    ensures
        r@ == text_of(bytes@),
        !valid_utf8(bytes@) ==> r@.contains('\u{FFFD}'),
{
    from_utf8_lossy(bytes)
}

/// The bytes that stand for themselves in an encoded form.
pub open spec fn plain_byte(b: u8) -> bool {
    ||| b == 0x2A
    ||| b == 0x2D
    ||| b == 0x2E
    ||| 0x30 <= b <= 0x39
    ||| 0x41 <= b <= 0x5A
    ||| b == 0x5F
    ||| 0x61 <= b <= 0x7A
}

/// The capital hexadecimal digit with the value `v`.
pub open spec fn hex_digit(v: int) -> char {
    if v < 10 {
        ((v + 48) as u32) as char
    } else {
        ((v - 10 + 65) as u32) as char
    }
}

/// A byte in an encoded form: itself, `+` for a space, or `%` and two
/// hexadecimal digits.
pub open spec fn encoded_byte(b: u8) -> Seq<char> {
    if plain_byte(b) {
        seq![b as char]
    } else if b == 0x20 {
        seq!['+']
    } else {
        seq!['%', hex_digit(b as int / 16), hex_digit(b as int % 16)]
    }
}

pub open spec fn encoded_bytes(bytes: Seq<u8>) -> Seq<char>
    decreases bytes.len(),
{
    if bytes.len() == 0 {
        seq![]
    } else {
        encoded_byte(bytes[0]) + encoded_bytes(bytes.drop_first())
    }
}

/// A name or a value in an encoded form: its UTF-8 bytes, one by one.
pub open spec fn encoded(text: Seq<char>) -> Seq<char> {
    encoded_bytes(encode_utf8(text))
}

pub open spec fn encoded_pair(pair: (Seq<char>, Seq<char>)) -> Seq<char> {
    encoded(pair.0) + seq!['='] + encoded(pair.1)
}

/// A form: its pairs of name and value in their order, with `&` between two.
pub open spec fn encoded_form(pairs: Seq<(Seq<char>, Seq<char>)>) -> Seq<char> {
    joined(pairs.map_values(|p: (Seq<char>, Seq<char>)| encoded_pair(p)), seq!['&'])
}

/// `serde_urlencoded::to_string` on a list of pairs of strings. The list is
/// written in its order and in full; on such a list the call does not fail.
#[verifier::external_body]
pub(crate) fn encode_form(pairs: &Vec<(String, String)>) -> (r: String)
    ensures
        r@ == encoded_form(pairs.deep_view()),
{
    serde_urlencoded::to_string(pairs).unwrap()
}

/// A form that is sent: the address that takes it, and its encoded fields.
#[derive(Debug)]
pub struct FormRequest {
    pub url: String,
    pub body: String,
}

/// What a form is announced as.
pub const FORM_CONTENT_TYPE: &'static str = "application/x-www-form-urlencoded";

/// Puts a pair of name and value at the end of a form's list.
pub fn add_field(fields: &mut Vec<(String, String)>, name: &str, value: &str)
    ensures
        final(fields).deep_view() == old(fields).deep_view().push((name@, value@)),
{
    let ghost before = fields.deep_view();
    fields.push((name.to_string(), value.to_string()));
    assert(fields.deep_view() =~= before.push((name@, value@)));
}

/// The value of a hexadecimal digit of either case.
pub open spec fn hex_value(b: u8) -> Option<u8> {
    if 0x30 <= b <= 0x39 {
        Some((b - 0x30) as u8)
    } else if 0x41 <= b <= 0x46 {
        Some((b - 0x41 + 10) as u8)
    } else if 0x61 <= b <= 0x66 {
        Some((b - 0x61 + 10) as u8)
    } else {
        None
    }
}

/// The byte that the two characters behind a `%` stand for: two hexadecimal
/// digits, or a plus sign and one.
pub open spec fn escape_value(a: u8, b: u8) -> Option<u8> {
    match (hex_value(a), hex_value(b)) {
        (Some(x), Some(y)) => Some((x * 16 + y) as u8),
        (None, Some(y)) => if a == 0x2B {
            Some(y)
        } else {
            None
        },
        _ => None,
    }
}

/// The bytes that the bytes of an encoded value stand for: a space for each
/// `+`, one byte for each `%` with an escape behind it, and all others as they
/// are.
pub open spec fn decoded_bytes(b: Seq<u8>) -> Seq<u8>
    decreases b.len(),
{
    if b.len() == 0 {
        seq![]
    } else if b[0] == 0x2B {
        seq![0x20u8] + decoded_bytes(b.skip(1))
    } else if b[0] == 0x25 && b.len() > 2 && escape_value(b[1], b[2]) is Some {
        seq![escape_value(b[1], b[2]).unwrap()] + decoded_bytes(b.skip(3))
    } else {
        seq![b[0]] + decoded_bytes(b.skip(1))
    }
}

/// The text that an encoded value stands for.
pub open spec fn decoded(value: Seq<char>) -> Seq<char> {
    text_of(decoded_bytes(encode_utf8(value)))
}

/// No `%` with two bytes or more behind it has the second of them inside a
/// character: what could be its escape can be cut out of the string.
pub open spec fn decodable(value: Seq<char>) -> bool {
    let b = encode_utf8(value);
    forall|i: int|
        0 <= i && i + 2 < b.len() && #[trigger] b[i] == 0x25 ==> is_char_boundary(b, i + 3)
}

/// The name in a `name=value` pair: all of it where there is no `=`.
pub open spec fn pair_name(pair: Seq<char>) -> Seq<char> {
    match cut(pair, '=') {
        Some((name, value)) => name,
        None => pair,
    }
}

/// The value in a `name=value` pair: empty where there is no `=`.
pub open spec fn pair_value(pair: Seq<char>) -> Seq<char> {
    match cut(pair, '=') {
        Some((name, value)) => value,
        None => seq![],
    }
}

/// The value of the first pair with the name `key`, as it stands.
pub open spec fn first_value(pairs: Seq<Seq<char>>, key: Seq<char>) -> Option<Seq<char>>
    decreases pairs.len(),
{
    if pairs.len() == 0 {
        None
    } else if pair_name(pairs[0]) == key {
        Some(pair_value(pairs[0]))
    } else {
        first_value(pairs.drop_first(), key)
    }
}

/// The value of the field `key` in an encoded form, as it stands.
pub open spec fn raw_field(body: Seq<char>, key: Seq<char>) -> Option<Seq<char>> {
    first_value(pieces(body, '&'), key)
}

/// The text of the field `key` in an encoded form, empty where there is none.
pub open spec fn field_text(body: Seq<char>, key: Seq<char>) -> Seq<char> {
    match raw_field(body, key) {
        Some(value) => decoded(value),
        None => seq![],
    }
}

fn hex_of(b: u8) -> (r: Option<u8>)
    ensures
        r == hex_value(b),
        r matches Some(v) ==> v < 16,
{
    if 0x30 <= b && b <= 0x39 {
        Some(b - 0x30)
    } else if 0x41 <= b && b <= 0x46 {
        Some(b - 0x41 + 10)
    } else if 0x61 <= b && b <= 0x66 {
        Some(b - 0x61 + 10)
    } else {
        None
    }
}

fn escape_of(a: u8, b: u8) -> (r: Option<u8>)
    ensures
        r == escape_value(a, b),
{
    match (hex_of(a), hex_of(b)) {
        (Some(x), Some(y)) => Some(x * 16 + y),
        (None, Some(y)) => if a == 0x2B {
            Some(y)
        } else {
            None
        },
        _ => None,
    }
}

/// Whether every escape in the value can be cut out of the string.
pub fn is_decodable(value: &str) -> (r: bool)
    ensures
        r == decodable(value@),
{
    let b: &[u8] = value.as_bytes();
    let mut i: usize = 0;
    while i < b.len() && b.len() - i > 2
        invariant
            b@ == encode_utf8(value@),
            i <= b.len(),
            forall|j: int|
                0 <= j < i && j + 2 < b@.len() && #[trigger] b@[j] == 0x25 ==> is_char_boundary(
                    b@,
                    j + 3,
                ),
        decreases b.len() - i,
    {
        if b[i] == 0x25 && !value.is_char_boundary(i + 3) {
            return false;
        }
        i = i + 1;
    }
    true
}

/// The text that an encoded value stands for: escapes that are not UTF-8 leave
/// a replacement character in it.
pub fn url_decode(value: &str) -> (r: String)
    requires
        decodable(value@),
    ensures
        r@ == decoded(value@),
        !valid_utf8(decoded_bytes(encode_utf8(value@))) ==> r@.contains('\u{FFFD}'),
{
    let b: &[u8] = value.as_bytes();
    let mut out: Vec<u8> = Vec::new();
    let mut i: usize = 0;
    proof {
        assert(b@.skip(0) =~= b@);
        assert(out@ + decoded_bytes(b@) =~= decoded_bytes(b@));
    }
    while i < b.len()
        invariant
            b@ == encode_utf8(value@),
            i <= b.len(),
            out@ + decoded_bytes(b@.skip(i as int)) == decoded_bytes(b@),
        decreases b.len() - i,
    {
        let ghost before = out@;
        let ghost rest = b@.skip(i as int);
        assert(rest[0] == b@[i as int]);
        let escape: Option<u8> = if b[i] == 0x25 && b.len() - i > 2 {
            escape_of(b[i + 1], b[i + 2])
        } else {
            None
        };
        if b[i] == 0x2B {
            out.push(0x20);
            i = i + 1;
            assert(rest.skip(1) =~= b@.skip(i as int));
            assert(before + (seq![0x20u8] + decoded_bytes(rest.skip(1))) =~= out@ + decoded_bytes(
                rest.skip(1),
            ));
        } else if let Some(v) = escape {
            out.push(v);
            i = i + 3;
            assert(rest.skip(3) =~= b@.skip(i as int));
            assert(before + (seq![v] + decoded_bytes(rest.skip(3))) =~= out@ + decoded_bytes(
                rest.skip(3),
            ));
        } else {
            let c: u8 = b[i];
            out.push(c);
            i = i + 1;
            assert(rest.skip(1) =~= b@.skip(i as int));
            assert(before + (seq![c] + decoded_bytes(rest.skip(1))) =~= out@ + decoded_bytes(
                rest.skip(1),
            ));
        }
    }
    assert(out@ + decoded_bytes(b@.skip(i as int)) =~= out@);
    read_text(out.as_slice())
}

/// The value of the field `key` in an encoded form, as it stands.
pub fn form_field(body: &str, key: &str) -> (r: Option<String>)
    ensures
        match r {
            Some(value) => raw_field(body@, key@) == Some(value@),
            None => raw_field(body@, key@) is None,
        },
{
    let pairs: Vec<String> = split(body, '&');
    let mut i: usize = 0;
    let ghost all = pieces(body@, '&');
    assert(all.skip(0) =~= all);
    while i < pairs.len()
        invariant
            all == pairs.deep_view(),
            all == pieces(body@, '&'),
            i <= pairs.len(),
            first_value(all, key@) == first_value(all.skip(i as int), key@),
        decreases pairs.len() - i,
    {
        let pair: &str = pairs[i].as_str();
        assert(all.skip(i as int)[0] == pair@);
        assert(all.skip(i as int).drop_first() =~= all.skip(i + 1));
        match split_once(pair, '=') {
            Some((name, value)) => {
                if same(name, key) {
                    return Some(value.to_string());
                }
            },
            None => {
                if same(pair, key) {
                    return Some(String::new());
                }
            },
        }
        i = i + 1;
    }
    None
}

/// The text of the field `key` in an encoded form, empty where there is none.
pub fn form_value(body: &str, key: &str) -> (r: String)
    requires
        raw_field(body@, key@) matches Some(value) ==> decodable(value),
    ensures
        r@ == field_text(body@, key@),
        raw_field(body@, key@) matches Some(value) ==> !valid_utf8(
            decoded_bytes(encode_utf8(value)),
        ) ==> r@.contains('\u{FFFD}'),
{
    match form_field(body, key) {
        Some(value) => url_decode(value.as_str()),
        None => String::new(),
    }
}

/// The first value that the list gives for `key`, empty where there is none.
pub open spec fn looked_up(pairs: Seq<(Seq<char>, Seq<char>)>, key: Seq<char>) -> Seq<char>
    decreases pairs.len(),
{
    if pairs.len() == 0 {
        seq![]
    } else if pairs[0].0 == key {
        pairs[0].1
    } else {
        looked_up(pairs.drop_first(), key)
    }
}

/// Every character is one that stands for itself in an encoded form.
pub open spec fn plain(s: Seq<char>) -> bool {
    &&& is_ascii_chars(s)
    &&& forall|i: int| 0 <= i < s.len() ==> plain_byte(#[trigger] s[i] as u8)
}

proof fn lemma_encoded_byte(b: u8)
    ensures
        is_ascii_chars(encoded_byte(b)),
        forall|i: int|
            0 <= i < encoded_byte(b).len() ==> #[trigger] encoded_byte(b)[i] != '&'
                && encoded_byte(b)[i] != '=',
        0 < encoded_byte(b).len(),
{
}

proof fn lemma_encoded_bytes(bytes: Seq<u8>)
    ensures
        is_ascii_chars(encoded_bytes(bytes)),
        forall|i: int|
            0 <= i < encoded_bytes(bytes).len() ==> #[trigger] encoded_bytes(bytes)[i] != '&'
                && encoded_bytes(bytes)[i] != '=',
    decreases bytes.len(),
{
    if bytes.len() > 0 {
        lemma_encoded_byte(bytes[0]);
        lemma_encoded_bytes(bytes.drop_first());
        let a = encoded_byte(bytes[0]);
        let b = encoded_bytes(bytes.drop_first());
        assert forall|i: int| 0 <= i < (a + b).len() implies #[trigger] (a + b)[i] != '&' && (a
            + b)[i] != '=' && 0 <= (a + b)[i] as nat && ((a + b)[i] as nat) < 128 by {
            if i < a.len() {
                assert((a + b)[i] == a[i]);
            } else {
                assert((a + b)[i] == b[i - a.len()]);
            }
        }
        assert(encoded_bytes(bytes) == a + b);
    }
}

/// The ASCII bytes of `encoded_byte(b)` followed by anything decode to `b`
/// followed by what the rest decodes to.
proof fn lemma_decode_byte(b: u8, e: Seq<u8>, rest: Seq<u8>)
    requires
        e.len() == encoded_byte(b).len(),
        forall|i: int| 0 <= i < e.len() ==> #[trigger] e[i] == encoded_byte(b)[i] as u8,
    ensures
        decoded_bytes(e + rest) == seq![b] + decoded_bytes(rest),
{
    let s = e + rest;
    assert(s[0] == e[0]);
    if plain_byte(b) || b == 0x20 {
        assert(s.skip(1) =~= rest);
    } else {
        assert(s[1] == e[1]);
        assert(s[2] == e[2]);
        assert(s.skip(3) =~= rest);
        let hi = b as int / 16;
        let lo = b as int % 16;
        assert(hex_value(hex_digit(hi) as u8) == Some(hi as u8));
        assert(hex_value(hex_digit(lo) as u8) == Some(lo as u8));
        assert(escape_value(s[1], s[2]) == Some(b));
    }
}

proof fn lemma_decode_bytes(bytes: Seq<u8>)
    ensures
        decoded_bytes(encode_utf8(encoded_bytes(bytes))) == bytes,
    decreases bytes.len(),
{
    let text = encoded_bytes(bytes);
    lemma_encoded_bytes(bytes);
    is_ascii_chars_encode_utf8(text);
    if bytes.len() == 0 {
        assert(encode_utf8(text) =~= seq![]);
        assert(decoded_bytes(encode_utf8(text)) =~= bytes);
    } else {
        let tail = bytes.drop_first();
        let a = encoded_byte(bytes[0]);
        let b = encoded_bytes(tail);
        lemma_encoded_bytes(tail);
        is_ascii_chars_encode_utf8(b);
        lemma_decode_bytes(tail);
        let e = Seq::new(a.len(), |i: int| a[i] as u8);
        assert(encode_utf8(text) =~= e + encode_utf8(b)) by {
            assert forall|i: int| 0 <= i < text.len() implies #[trigger] encode_utf8(text)[i] == (e
                + encode_utf8(b))[i] by {
                if i < a.len() {
                    assert(text[i] == a[i]);
                } else {
                    assert(text[i] == b[i - a.len()]);
                }
            }
        }
        lemma_decode_byte(bytes[0], e, encode_utf8(b));
        assert(seq![bytes[0]] + tail =~= bytes);
    }
}

/// Decoding undoes encoding, on every text; and an encoded text can always be
/// decoded.
pub proof fn decoding_undoes_encoding(text: Seq<char>)
    ensures
        decodable(encoded(text)),
        decoded(encoded(text)) == text,
{
    let bytes = encode_utf8(text);
    lemma_decode_bytes(bytes);
    encode_utf8_valid_utf8(text);
    encode_utf8_decode_utf8(text);
    let e = encoded(text);
    lemma_encoded_bytes(bytes);
    is_ascii_chars_encode_utf8(e);
    encode_utf8_valid_utf8(e);
    let b = encode_utf8(e);
    assert forall|i: int| 0 <= i && i + 2 < b.len() && #[trigger] b[i] == 0x25 implies
        is_char_boundary(b, i + 3) by {
        if i + 3 == b.len() {
            is_char_boundary_start_end_of_seq(b);
        } else {
            assert(b[i + 3] == e[i + 3] as u8);
            assert(!is_continuation_byte(b[i + 3]));
            is_char_boundary_iff_not_is_continuation_byte(b, i + 3);
        }
    }
}

proof fn lemma_plain_encoded(key: Seq<char>)
    requires
        plain(key),
    ensures
        encoded(key) == key,
    decreases key.len(),
{
    is_ascii_chars_encode_utf8(key);
    if key.len() == 0 {
        assert(encode_utf8(key) =~= seq![]);
        assert(encoded(key) =~= key);
    } else {
        let tail = key.drop_first();
        assert forall|i: int| 0 <= i < tail.len() implies '\0' <= #[trigger] tail[i]
            <= '\u{7f}' && plain_byte(tail[i] as u8) by {
            assert(tail[i] == key[i + 1]);
        }
        lemma_plain_encoded(tail);
        is_ascii_chars_encode_utf8(tail);
        let bytes = encode_utf8(key);
        assert(bytes.drop_first() =~= encode_utf8(tail)) by {
            assert forall|i: int| 0 <= i < tail.len() implies bytes.drop_first()[i]
                == #[trigger] encode_utf8(tail)[i] by {
                assert(tail[i] == key[i + 1]);
                assert(bytes[i + 1] == key[i + 1] as u8);
            }
        }
        assert(bytes[0] == key[0] as u8);
        assert(encoded_byte(bytes[0]) =~= seq![key[0]]);
        assert(seq![key[0]] + tail =~= key);
    }
}

proof fn lemma_first_value(pairs: Seq<(Seq<char>, Seq<char>)>, key: Seq<char>)
    requires
        plain(key),
    ensures
        ({
            let parts = pairs.map_values(|p: (Seq<char>, Seq<char>)| encoded_pair(p));
            match first_value(parts, key) {
                Some(value) => decoded(value) == looked_up(pairs, key) && decodable(value),
                None => looked_up(pairs, key) == Seq::<char>::empty(),
            }
        }),
    decreases pairs.len(),
{
    let f = |p: (Seq<char>, Seq<char>)| encoded_pair(p);
    let parts = pairs.map_values(f);
    if pairs.len() > 0 {
        let (name, value) = pairs[0];
        lemma_encoded_bytes(encode_utf8(name));
        lemma_cut_front(encoded(name), '=', encoded(value));
        assert(parts[0] == encoded_pair(pairs[0]));
        decoding_undoes_encoding(name);
        decoding_undoes_encoding(value);
        lemma_plain_encoded(key);
        decoding_undoes_encoding(key);
        assert(pair_name(parts[0]) == encoded(name));
        assert(encoded(name) == key <==> name == key);
        lemma_first_value(pairs.drop_first(), key);
        assert(parts.drop_first() =~= pairs.drop_first().map_values(f));
    }
}

/// What stands under a plain name in an encoded form of one pair is the encoded
/// value.
pub proof fn raw_field_of_encoded_pair(key: Seq<char>, value: Seq<char>)
    requires
        plain(key),
    ensures
        raw_field(encoded_form(seq![(key, value)]), key) == Some(encoded(value)),
{
    let f = |p: (Seq<char>, Seq<char>)| encoded_pair(p);
    let parts = seq![(key, value)].map_values(f);
    let pair = encoded_pair((key, value));
    assert(parts =~= seq![pair]);
    lemma_encoded_bytes(encode_utf8(key));
    lemma_encoded_bytes(encode_utf8(value));
    lemma_plain_encoded(key);
    assert forall|i: int, j: int|
        0 <= i < parts.len() && 0 <= j < parts[i].len() implies #[trigger] parts[i][j] != '&' by {
        if j < key.len() {
            assert(parts[i][j] == encoded(key)[j]);
        } else if j > key.len() {
            assert(parts[i][j] == encoded(value)[j - key.len() - 1]);
        }
    }
    lemma_pieces_of_joined(parts, '&');
    lemma_cut_front(encoded(key), '=', encoded(value));
}

/// What is read from an encoded form under a plain name is the first value that
/// was written there under that name.
pub proof fn field_of_encoded_form(pairs: Seq<(Seq<char>, Seq<char>)>, key: Seq<char>)
    requires
        plain(key),
    ensures
        field_text(encoded_form(pairs), key) == looked_up(pairs, key),
        raw_field(encoded_form(pairs), key) matches Some(value) ==> decodable(value),
{
    let f = |p: (Seq<char>, Seq<char>)| encoded_pair(p);
    let parts = pairs.map_values(f);
    if pairs.len() == 0 {
        let body = encoded_form(pairs);
        assert(body =~= seq![]);
        assert(pieces(body, '&') =~= seq![body]);
        decoding_undoes_encoding(seq![]);
        assert(encode_utf8(Seq::<char>::empty()) =~= seq![]);
        assert(encoded(seq![]) =~= seq![]);
        assert(pair_value(body) =~= seq![]);
        assert(first_value(seq![body].drop_first(), key) is None);
    } else {
        assert forall|i: int, j: int|
            0 <= i < parts.len() && 0 <= j < parts[i].len() implies #[trigger] parts[i][j]
            != '&' by {
            let name = encoded(pairs[i].0);
            let value = encoded(pairs[i].1);
            lemma_encoded_bytes(encode_utf8(pairs[i].0));
            lemma_encoded_bytes(encode_utf8(pairs[i].1));
            assert(parts[i] == name + seq!['='] + value);
            if j < name.len() {
                assert(parts[i][j] == name[j]);
            } else if j > name.len() {
                assert(parts[i][j] == value[j - name.len() - 1]);
            }
        }
        lemma_pieces_of_joined(parts, '&');
        lemma_first_value(pairs, key);
    }
}

/// The bytes of two texts, one behind the other, are those of the whole.
pub proof fn lemma_encode_utf8_both(a: Seq<char>, b: Seq<char>)
    ensures
        encode_utf8(a + b) == encode_utf8(a) + encode_utf8(b),
    decreases a.len(),
{
    if a.len() == 0 {
        assert(a + b =~= b);
        assert(encode_utf8(a) + encode_utf8(b) =~= encode_utf8(b));
    } else {
        lemma_encode_utf8_both(a.drop_first(), b);
        assert((a + b).drop_first() =~= a.drop_first() + b);
        let first = encode_scalar(a[0] as u32);
        assert(first + (encode_utf8(a.drop_first()) + encode_utf8(b)) =~= first + encode_utf8(
            a.drop_first(),
        ) + encode_utf8(b));
    }
}

proof fn lemma_encoded_bytes_both(a: Seq<u8>, b: Seq<u8>)
    ensures
        encoded_bytes(a + b) == encoded_bytes(a) + encoded_bytes(b),
    decreases a.len(),
{
    if a.len() == 0 {
        assert(a + b =~= b);
        assert(encoded_bytes(a) + encoded_bytes(b) =~= encoded_bytes(b));
    } else {
        lemma_encoded_bytes_both(a.drop_first(), b);
        assert((a + b).drop_first() =~= a.drop_first() + b);
        let first = encoded_byte(a[0]);
        assert(first + (encoded_bytes(a.drop_first()) + encoded_bytes(b)) =~= first
            + encoded_bytes(a.drop_first()) + encoded_bytes(b));
    }
}

/// A text is encoded part by part, wherever it is cut.
pub proof fn texts_are_encoded_in_parts(a: Seq<char>, b: Seq<char>)
    ensures
        encoded(a + b) == encoded(a) + encoded(b),
{
    lemma_encode_utf8_both(a, b);
    lemma_encoded_bytes_both(encode_utf8(a), encode_utf8(b));
}

/// ASCII letters and digits and the characters `*-._` stay as they are, a space
/// becomes a plus sign, and any other ASCII character a percent sign and two
/// hexadecimal digits.
pub proof fn ascii_is_encoded(c: char)
    requires
        c <= '\u{7f}',
    ensures
        encoded(seq![c]) == (if 'a' <= c <= 'z' || 'A' <= c <= 'Z' || '0' <= c <= '9' || c == '*'
            || c == '-' || c == '.' || c == '_' {
            seq![c]
        } else if c == ' ' {
            seq!['+']
        } else {
            seq![
                '%',
                "0123456789ABCDEF"@[c as u32 as int / 16],
                "0123456789ABCDEF"@[c as u32 as int % 16],
            ]
        }),
{
    reveal_strlit("0123456789ABCDEF");
    let s = seq![c];
    is_ascii_chars_encode_utf8(s);
    let bytes = encode_utf8(s);
    assert(bytes =~= seq![c as u8]);
    assert(bytes.drop_first() =~= seq![]);
    assert(encoded_bytes(bytes.drop_first()) =~= seq![]);
    assert(encoded(s) =~= encoded_byte(c as u8));
    let n = c as u32 as int;
    assert(hex_digit(n / 16) == "0123456789ABCDEF"@[n / 16]);
    assert(hex_digit(n % 16) == "0123456789ABCDEF"@[n % 16]);
}

/// A byte that is not ASCII becomes a percent sign and two hexadecimal digits.
pub proof fn other_bytes_are_escaped(b: u8, rest: Seq<u8>)
    requires
        b >= 128,
    ensures
        encoded_bytes(seq![b] + rest) == seq![
            '%',
            "0123456789ABCDEF"@[b as int / 16],
            "0123456789ABCDEF"@[b as int % 16],
        ] + encoded_bytes(rest),
{
    reveal_strlit("0123456789ABCDEF");
    assert((seq![b] + rest).drop_first() =~= rest);
    assert(hex_digit(b as int / 16) == "0123456789ABCDEF"@[b as int / 16]);
    assert(hex_digit(b as int % 16) == "0123456789ABCDEF"@[b as int % 16]);
}

/// Two hexadecimal digits of either case behind a percent sign are one byte,
/// whatever follows.
pub proof fn escapes_are_decoded(high: int, low: int, x: u8, y: u8, rest: Seq<u8>)
    requires
        0 <= high < 16,
        0 <= low < 16,
        x == "0123456789ABCDEF"@[high] as u8 || x == "0123456789abcdef"@[high] as u8,
        y == "0123456789ABCDEF"@[low] as u8 || y == "0123456789abcdef"@[low] as u8,
    ensures
        decoded_bytes(seq!['%' as u8, x, y] + rest) == seq![(16 * high + low) as u8]
            + decoded_bytes(rest),
{
    reveal_strlit("0123456789ABCDEF");
    reveal_strlit("0123456789abcdef");
    let b = seq!['%' as u8, x, y] + rest;
    assert(hex_value(x) == Some(high as u8));
    assert(hex_value(y) == Some(low as u8));
    assert(b[0] == 0x25 && b[1] == x && b[2] == y);
    assert(b.skip(3) =~= rest);
}

/// A plus sign is a space, and any other byte but a percent sign is itself,
/// whatever follows. A percent sign without two hexadecimal digits behind it is
/// itself too.
pub proof fn other_bytes_are_decoded(b: u8, rest: Seq<u8>)
    requires
        b == 0x25 ==> rest.len() < 2 || hex_value(rest[1]) is None || (hex_value(rest[0]) is None
            && rest[0] != 0x2B),
    ensures
        decoded_bytes(seq![b] + rest) == seq![
            if b == 0x2B {
                0x20
            } else {
                b
            },
        ] + decoded_bytes(rest),
{
    let s = seq![b] + rest;
    assert(s[0] == b);
    assert(s.skip(1) =~= rest);
    if rest.len() >= 2 {
        assert(s[1] == rest[0] && s[2] == rest[1]);
    }
}

/// A name without an equals sign has an empty value, and what follows the first
/// equals sign is the value, more of them included.
pub proof fn pairs_are_cut_at_the_first_equals_sign(name: Seq<char>, value: Seq<char>)
    requires
        !name.contains('='),
    ensures
        pair_name(name) == name,
        pair_value(name) == Seq::<char>::empty(),
        pair_name(name + seq!['='] + value) == name,
        pair_value(name + seq!['='] + value) == value,
{
    cutting_finds_the_first(name, '=');
    if cut(name, '=') is Some {
        let (a, b) = cut(name, '=').unwrap();
        assert(name[a.len() as int] == '=');
    }
    assert forall|i: int| 0 <= i < name.len() implies #[trigger] name[i] != '=' by {
        assert(name.contains(name[i]));
    }
    lemma_cut_front(name, '=', value);
}

proof fn lemma_bytes_of_a_text(value: Seq<char>)
    requires
        !value.contains('%'),
        !value.contains('+'),
    ensures
        forall|i: int|
            0 <= i < encode_utf8(value).len() ==> #[trigger] encode_utf8(value)[i] != 0x25
                && encode_utf8(value)[i] != 0x2B,
    decreases value.len(),
{
    if value.len() > 0 {
        let rest = value.drop_first();
        assert(value.contains(value[0]));
        assert forall|c: char| rest.contains(c) implies value.contains(c) by {
            let i = choose|i: int| 0 <= i < rest.len() && rest[i] == c;
            assert(value[i + 1] == c);
        }
        lemma_bytes_of_a_text(rest);
        lemma_bytes_of_a_character(value[0]);
        let a = encode_scalar(value[0] as u32);
        let b = encode_utf8(rest);
        assert forall|i: int| 0 <= i < (a + b).len() implies #[trigger] (a + b)[i] != 0x25 && (a
            + b)[i] != 0x2B by {
            if i < a.len() {
                assert((a + b)[i] == a[i]);
            } else {
                assert((a + b)[i] == b[i - a.len()]);
            }
        }
    }
}

proof fn lemma_bytes_of_a_character(c: char)
    requires
        c != '%',
        c != '+',
    ensures
        forall|i: int|
            0 <= i < encode_scalar(c as u32).len() ==> #[trigger] encode_scalar(c as u32)[i] != 0x25
                && encode_scalar(c as u32)[i] != 0x2B,
{
    let scalar = c as u32;
    assert(scalar <= 0x7F && scalar != 0x25 && scalar != 0x2B ==> (scalar & 0x7F) as u8 != 0x25 && (
    scalar & 0x7F) as u8 != 0x2B) by (bit_vector);
    assert((0xC0 | ((scalar >> 6) & 0x1F) as u8) >= 0x80) by (bit_vector);
    assert((0xE0 | ((scalar >> 12) & 0x0F) as u8) >= 0x80) by (bit_vector);
    assert((0xF0 | ((scalar >> 18) & 0x7) as u8) >= 0x80) by (bit_vector);
    assert((0x80 | (scalar & 0x3F) as u8) >= 0x80) by (bit_vector);
    assert((0x80 | ((scalar >> 6) & 0x3F) as u8) >= 0x80) by (bit_vector);
    assert((0x80 | ((scalar >> 12) & 0x3F) as u8) >= 0x80) by (bit_vector);
}

proof fn lemma_unescaped_bytes(b: Seq<u8>)
    requires
        forall|i: int| 0 <= i < b.len() ==> #[trigger] b[i] != 0x25 && b[i] != 0x2B,
    ensures
        decoded_bytes(b) == b,
    decreases b.len(),
{
    if b.len() > 0 {
        let rest = b.skip(1);
        assert forall|i: int| 0 <= i < rest.len() implies #[trigger] rest[i] != 0x25 && rest[i]
            != 0x2B by {
            assert(rest[i] == b[i + 1]);
        }
        lemma_unescaped_bytes(rest);
        assert(b[0] != 0x25);
        assert(seq![b[0]] + rest =~= b);
    } else {
        assert(decoded_bytes(b) =~= b);
    }
}

/// A text without percent and plus signs is decodable, and stands for itself.
pub proof fn plain_texts_stand_for_themselves(value: Seq<char>)
    requires
        !value.contains('%'),
        !value.contains('+'),
    ensures
        decodable(value),
        decoded(value) == value,
{
    lemma_bytes_of_a_text(value);
    lemma_unescaped_bytes(encode_utf8(value));
    encode_utf8_valid_utf8(value);
    encode_utf8_decode_utf8(value);
}

/// ASCII can always be decoded.
pub proof fn ascii_is_decodable(value: Seq<char>)
    requires
        is_ascii_chars(value),
    ensures
        decodable(value),
{
    is_ascii_chars_encode_utf8(value);
    encode_utf8_valid_utf8(value);
    let b = encode_utf8(value);
    assert forall|i: int| 0 <= i && i + 2 < b.len() && #[trigger] b[i] == 0x25 implies
        is_char_boundary(b, i + 3) by {
        if i + 3 == b.len() {
            is_char_boundary_start_end_of_seq(b);
        } else {
            assert(b[i + 3] == value[i + 3] as u8);
            assert(!is_continuation_byte(b[i + 3]));
            is_char_boundary_iff_not_is_continuation_byte(b, i + 3);
        }
    }
}

/// A percent sign before a character of three bytes or more cannot be decoded:
/// two bytes behind it are not a whole number of characters.
pub proof fn escapes_do_not_cut_characters(front: Seq<char>, c: char, rest: Seq<char>)
    requires
        c >= '\u{800}',
    ensures
        !decodable(front + seq!['%'] + seq![c] + rest),
{
    let value = front + seq!['%'] + seq![c] + rest;
    let b = encode_utf8(value);
    lemma_encode_utf8_both(front + seq!['%'] + seq![c], rest);
    lemma_encode_utf8_both(front + seq!['%'], seq![c]);
    lemma_encode_utf8_both(front, seq!['%']);
    let i = encode_utf8(front).len() as int;
    let percent = seq!['%'];
    is_ascii_chars_encode_utf8(percent);
    assert(encode_utf8(percent) =~= seq![0x25u8]);
    let one = seq![c];
    assert(one.drop_first() =~= seq![]);
    assert(encode_utf8(one.drop_first()) =~= seq![]);
    let bytes = encode_scalar(c as u32);
    assert(encode_utf8(one) =~= bytes);
    assert(b =~= encode_utf8(front) + seq![0x25u8] + bytes + encode_utf8(rest));
    let scalar = c as u32;
    assert(0x80 <= (0x80 | ((scalar >> 6) & 0x3F) as u8) <= 0xBF) by (bit_vector);
    assert(0x80 <= (0x80 | (scalar & 0x3F) as u8) <= 0xBF) by (bit_vector);
    assert(bytes.len() >= 3);
    assert(is_continuation_byte(bytes[2]));
    assert(b[i] == 0x25);
    assert(b[i + 3] == bytes[2]);
    encode_utf8_valid_utf8(value);
    is_char_boundary_iff_not_is_continuation_byte(b, i + 3);
}

} // verus!
