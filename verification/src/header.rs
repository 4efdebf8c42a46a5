//! The headers that go with every request to the site.
use vstd::prelude::*;
use vstd::utf8::*;
use reqwest::header::{HeaderMap, HeaderValue};
use crate::text::small;

verus! {

/// `HeaderMap` of `reqwest`: what it holds is named by `header_entries`.
#[verifier::external_type_specification]
#[verifier::external_body]
#[verifier::reject_recursive_types(T)]
pub struct ExHeaderMap<T>(reqwest::header::HeaderMap<T>);

/// `HeaderValue` of `reqwest`: only carried, never looked into.
#[verifier::external_type_specification]
#[verifier::external_body]
pub struct ExHeaderValue(reqwest::header::HeaderValue);

/// What a map of headers holds: under each name, in small letters, the bytes of
/// its values in their order.
pub uninterp spec fn header_entries(headers: HeaderMap<HeaderValue>) -> Map<
    Seq<char>,
    Seq<Seq<u8>>,
>;

/// What a map without headers holds.
pub open spec fn no_entries() -> Map<Seq<char>, Seq<Seq<u8>>> {
    Map::empty()
}

/// A name of a header as the map keeps it.
pub open spec fn header_name(name: Seq<char>) -> Seq<char> {
    name.map_values(|c: char| small(c))
}

/// The letters, digits and the hyphen, of which names are made here.
pub open spec fn name_char(c: char) -> bool {
    ||| 'a' <= c <= 'z'
    ||| 'A' <= c <= 'Z'
    ||| '0' <= c <= '9'
    ||| c == '-'
}

/// The printable ASCII characters, of which values are made here.
pub open spec fn value_char(c: char) -> bool {
    ' ' <= c <= '~'
}

/// `HeaderMap::new` of `reqwest`: the map has no headers.
#[verifier::external_body]
fn no_headers() -> (r: HeaderMap<HeaderValue>)
    ensures
        header_entries(r) == no_entries(),
{
    HeaderMap::new()
}

/// `HeaderMap::insert` of `reqwest`, with the value from
/// `HeaderValue::from_static`: the name, in small letters, has this one value,
/// and all other names keep theirs. Names and values of other characters, names
/// of more characters and maps of more names are left out: beyond some bound
/// each of them makes the calls panic.
#[verifier::external_body]
fn insert_header(headers: &mut HeaderMap<HeaderValue>, name: &'static str, value: &'static str)
    requires
        0 < name@.len() <= 64,
        forall|i: int| 0 <= i < name@.len() ==> name_char(#[trigger] name@[i]),
        forall|i: int| 0 <= i < value@.len() ==> value_char(#[trigger] value@[i]),
        header_entries(*old(headers)).dom().finite(),
        header_entries(*old(headers)).dom().len() < 1000,
    ensures
        header_entries(*final(headers)) == header_entries(*old(headers)).insert(
            header_name(name@),
            seq![encode_utf8(value@)],
        ),
{
    headers.insert(name, HeaderValue::from_static(value));
}

/// The headers of every request, by their names in small letters.
pub open spec fn request_headers() -> Map<Seq<char>, Seq<Seq<u8>>> {
    no_entries().insert(
        header_name("Host"@),
        seq![encode_utf8("irs.thsrc.com.tw"@)],
    ).insert(
        header_name("User-Agent"@),
        seq![
            encode_utf8(
                "Mozilla/5.0 (Windows NT 10.0; Win64; x64; rv:137.0) Gecko/20100101 Firefox/137.0"@,
            ),
        ],
    ).insert(
        header_name("Accept"@),
        seq![
            encode_utf8(
                "text/html,application/xhtml+xml,application/xml;q=0.9,image/webp,*/*;q=0.8"@,
            ),
        ],
    ).insert(
        header_name("Accept-Language"@),
        seq![encode_utf8("zh-TW,zh;q=0.8,en-US;q=0.5,en;q=0.3"@)],
    ).insert(header_name("Accept-Encoding"@), seq![encode_utf8("deflate, br"@)]).insert(
        header_name("Connection"@),
        seq![encode_utf8("keep-alive"@)],
    ).insert(header_name("Upgrade-Insecure-Requests"@), seq![encode_utf8("1"@)]).insert(
        header_name("Referer"@),
        seq![encode_utf8("https://irs.thsrc.com.tw/IMINT/"@)],
    ).insert(header_name("Sec-Fetch-Site"@), seq![encode_utf8("same-origin"@)]).insert(
        header_name("Sec-Fetch-Mode"@),
        seq![encode_utf8("no-cors"@)],
    )
}

/// The first `n` characters of `s` can stand in a name.
spec fn names_up_to(s: Seq<char>, n: nat) -> bool
    decreases n,
{
    n == 0 || (name_char(s[n - 1]) && names_up_to(s, (n - 1) as nat))
}

/// The first `n` characters of `s` can stand in a value.
spec fn values_up_to(s: Seq<char>, n: nat) -> bool
    decreases n,
{
    n == 0 || (value_char(s[n - 1]) && values_up_to(s, (n - 1) as nat))
}

proof fn lemma_names_up_to(s: Seq<char>, n: nat)
    requires
        names_up_to(s, n),
    ensures
        forall|i: int| 0 <= i < n ==> name_char(#[trigger] s[i]),
    decreases n,
{
    if n > 0 {
        lemma_names_up_to(s, (n - 1) as nat);
    }
}

proof fn lemma_values_up_to(s: Seq<char>, n: nat)
    requires
        values_up_to(s, n),
    ensures
        forall|i: int| 0 <= i < n ==> value_char(#[trigger] s[i]),
    decreases n,
{
    if n > 0 {
        lemma_values_up_to(s, (n - 1) as nat);
    }
}

fn set_header(headers: &mut HeaderMap<HeaderValue>, name: &'static str, value: &'static str)
    requires
        0 < name@.len() <= 64,
        names_up_to(name@, name@.len()),
        values_up_to(value@, value@.len()),
        header_entries(*old(headers)).dom().finite(),
        header_entries(*old(headers)).dom().len() < 1000,
    ensures
        header_entries(*final(headers)) == header_entries(*old(headers)).insert(
            header_name(name@),
            seq![encode_utf8(value@)],
        ),
        header_entries(*final(headers)).dom().finite(),
        header_entries(*final(headers)).dom().len() <= header_entries(*old(headers)).dom().len()
            + 1,
{
    proof {
        lemma_names_up_to(name@, name@.len());
        lemma_values_up_to(value@, value@.len());
    }
    let ghost before = header_entries(*headers);
    insert_header(headers, name, value);
    assert(header_entries(*headers).dom() =~= before.dom().insert(header_name(name@)));
}

/// The headers of every request.
#[verifier::spinoff_prover]
pub fn get_header() -> (r: HeaderMap<HeaderValue>)
    ensures
        header_entries(r) == request_headers(),
{
    let mut headers: HeaderMap<HeaderValue> = no_headers();
    proof {
        reveal_with_fuel(names_up_to, 30);
        reveal_with_fuel(values_up_to, 85);
        reveal_strlit("Host");
        reveal_strlit("irs.thsrc.com.tw");
        reveal_strlit("User-Agent");
        reveal_strlit(
            "Mozilla/5.0 (Windows NT 10.0; Win64; x64; rv:137.0) Gecko/20100101 Firefox/137.0",
        );
        reveal_strlit("Accept");
        reveal_strlit("text/html,application/xhtml+xml,application/xml;q=0.9,image/webp,*/*;q=0.8");
        reveal_strlit("Accept-Language");
        reveal_strlit("zh-TW,zh;q=0.8,en-US;q=0.5,en;q=0.3");
        reveal_strlit("Accept-Encoding");
        reveal_strlit("deflate, br");
        reveal_strlit("Connection");
        reveal_strlit("keep-alive");
        reveal_strlit("Upgrade-Insecure-Requests");
        reveal_strlit("1");
        reveal_strlit("Referer");
        reveal_strlit("https://irs.thsrc.com.tw/IMINT/");
        reveal_strlit("Sec-Fetch-Site");
        reveal_strlit("same-origin");
        reveal_strlit("Sec-Fetch-Mode");
        reveal_strlit("no-cors");
    }
    set_header(&mut headers, "Host", "irs.thsrc.com.tw");
    set_header(
        &mut headers,
        "User-Agent",
        "Mozilla/5.0 (Windows NT 10.0; Win64; x64; rv:137.0) Gecko/20100101 Firefox/137.0",
    );
    set_header(
        &mut headers,
        "Accept",
        "text/html,application/xhtml+xml,application/xml;q=0.9,image/webp,*/*;q=0.8",
    );
    set_header(&mut headers, "Accept-Language", "zh-TW,zh;q=0.8,en-US;q=0.5,en;q=0.3");
    set_header(&mut headers, "Accept-Encoding", "deflate, br");
    set_header(&mut headers, "Connection", "keep-alive");
    set_header(&mut headers, "Upgrade-Insecure-Requests", "1");
    set_header(&mut headers, "Referer", "https://irs.thsrc.com.tw/IMINT/");
    set_header(&mut headers, "Sec-Fetch-Site", "same-origin");
    set_header(&mut headers, "Sec-Fetch-Mode", "no-cors");
    headers
}

} // verus!
