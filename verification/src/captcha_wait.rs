//! Where the CAPTCHA page is to be found, and how a person is told of it.
use vstd::prelude::*;
use vstd::string::*;
use crate::booking_flow::FIXED_DATE;
use crate::captcha::{page_path, write_page_path};
use crate::number::{decimal, lemma_decimal_digits, number, number_reads_decimal, write_decimal};
use crate::text::{
    add_line, all_space, cut, is_space, lemma_cut_front, starts_with, trim, trim_end_char, trimmed,
    trimmed_end_by, trimmed_start, trimming_takes_white_space,
};

verus! {

/// What the environment says of where the program runs.
pub struct Surroundings {
    /// `THSR_PUBLIC_URL`
    pub public_url: Option<String>,
    /// `RAILWAY_PUBLIC_DOMAIN`
    pub public_domain: Option<String>,
    /// `RAILWAY_STATIC_URL`
    pub static_url: Option<String>,
    /// `RAILWAY_ENVIRONMENT_NAME` is set
    pub environment_named: bool,
    /// `RAILWAY_PROJECT_ID` is set
    pub project_known: bool,
}

/// `s` without its trailing slashes.
pub open spec fn without_slashes(s: Seq<char>) -> Seq<char> {
    trimmed_end_by(s, |c: char| c == '/')
}

/// A public address as it is used: without white space and trailing slashes,
/// and by HTTPS where it does not say otherwise.
pub open spec fn as_base_url(value: Seq<char>) -> Seq<char> {
    let v = without_slashes(trimmed(value));
    if "http://"@.is_prefix_of(v) || "https://"@.is_prefix_of(v) {
        v
    } else {
        "https://"@ + v
    }
}

impl Surroundings {
    /// The address under which the server can be reached from outside: the one
    /// that was given, else the domain, else the static address.
    pub open spec fn base_url(self) -> Option<Seq<char>> {
        match self.public_url {
            Some(value) => Some(as_base_url(value@)),
            None => match self.public_domain {
                Some(value) => Some(as_base_url(value@)),
                None => match self.static_url {
                    Some(value) => Some(as_base_url(value@)),
                    None => None,
                },
            },
        }
    }

    /// The program runs on Railway.
    pub open spec fn on_railway(self) -> bool {
        self.environment_named || self.project_known
    }

    /// The page is to be opened in a browser here.
    pub open spec fn opens_here(self) -> bool {
        !self.on_railway() && self.base_url() is None
    }

    /// The address of the page for a token: under the public address, or on
    /// this machine. On Railway without a public address there is none.
    pub open spec fn page_url(self, local_port: u16, token: Seq<char>) -> Option<Seq<char>> {
        match self.base_url() {
            Some(base) => Some(without_slashes(base) + page_path(token)),
            None => if self.on_railway() {
                None
            } else {
                Some("http://127.0.0.1:"@ + decimal(local_port as nat) + page_path(token))
            },
        }
    }
}

fn base_url_of(value: &str) -> (r: String)
    ensures
        r@ == as_base_url(value@),
{
    let v: &str = trim_end_char(trim(value), '/');
    if starts_with(v, "http://") || starts_with(v, "https://") {
        v.to_string()
    } else {
        let mut s: String = "https://".to_string();
        s.append(v);
        s
    }
}

impl Surroundings {
    /// The address under which the server can be reached from outside.
    pub fn public_base(&self) -> (r: Option<String>)
        ensures
            r.deep_view() == self.base_url(),
    {
        match &self.public_url {
            Some(value) => Some(base_url_of(value.as_str())),
            None => match &self.public_domain {
                Some(value) => Some(base_url_of(value.as_str())),
                None => match &self.static_url {
                    Some(value) => Some(base_url_of(value.as_str())),
                    None => None,
                },
            },
        }
    }

    /// Whether the program runs on Railway.
    pub fn is_railway(&self) -> (r: bool)
        ensures
            r == self.on_railway(),
    {
        self.environment_named || self.project_known
    }

    /// The address of the page for a token; none where nobody could reach it.
    pub fn captcha_url(&self, local_port: u16, token: &str) -> (r: Option<String>)
        ensures
            r.deep_view() == self.page_url(local_port, token@),
    {
        match self.public_base() {
            Some(base) => {
                let mut url: String = trim_end_char(base.as_str(), '/').to_string();
                url.append(write_page_path(token).as_str());
                Some(url)
            },
            None => {
                if self.is_railway() {
                    None
                } else {
                    let mut url: String = "http://127.0.0.1:".to_string();
                    url.append(write_decimal(local_port as u128).as_str());
                    url.append(write_page_path(token).as_str());
                    Some(url)
                }
            },
        }
    }

    /// Whether the page is to be opened in a browser here: only where the
    /// program runs on a person's own machine.
    pub fn opens_browser(&self) -> (r: bool)
        ensures
            r == self.opens_here(),
    {
        !self.is_railway() && self.public_base().is_none()
    }
}

/// A token for one CAPTCHA: the process and the time.
pub open spec fn token_text(process: nat, nanoseconds: nat) -> Seq<char> {
    decimal(process) + "-"@ + decimal(nanoseconds)
}

/// A token for one CAPTCHA: the process and the time.
pub fn captcha_token(process: u32, nanoseconds: u128) -> (r: String)
    ensures
        r@ == token_text(process as nat, nanoseconds as nat),
{
    let mut s: String = write_decimal(process as u128);
    s.append("-");
    s.append(write_decimal(nanoseconds).as_str());
    s
}

/// The address to listen on: the given port, and any free one where none is.
pub open spec fn address_text(given: Option<Seq<char>>) -> Seq<char> {
    "0.0.0.0:"@ + (match given {
        Some(value) => value,
        None => "0"@,
    })
}

/// The address to listen on: the given port, and any free one where none is.
pub fn listen_address(given: &Option<String>) -> (r: String)
    ensures
        r@ == address_text(given.deep_view()),
{
    let mut s: String = "0.0.0.0:".to_string();
    match given {
        Some(value) => {
            s.append(value.as_str());
        },
        None => {
            s.append("0");
        },
    }
    s
}

/// What is logged where the page cannot be reached.
pub open spec fn unavailable_lines() -> Seq<Seq<char>> {
    seq![
        ""@,
        "================================="@,
        "CAPTCHA URL NOT AVAILABLE"@,
        "================================="@,
        "The CAPTCHA server is running on Railway, but this service has no public URL."@,
        "1. Railway -> Service -> Settings -> Networking -> Generate Domain"@,
        "2. Redeploy the service"@,
        "3. Or set THSR_PUBLIC_URL=https://YOUR-DOMAIN in Railway Variables"@,
        "================================="@,
    ]
}

/// What is logged where the page cannot be reached.
pub fn unavailable_notice() -> (r: Vec<String>)
    ensures
        r.deep_view() == unavailable_lines(),
{
    let mut list: Vec<String> = Vec::new();
    add_line(&mut list, "");
    add_line(&mut list, "=================================");
    add_line(&mut list, "CAPTCHA URL NOT AVAILABLE");
    add_line(&mut list, "=================================");
    add_line(
        &mut list,
        "The CAPTCHA server is running on Railway, but this service has no public URL.",
    );
    add_line(
        &mut list,
        "1. Railway -> Service -> Settings -> Networking -> Generate Domain",
    );
    add_line(&mut list, "2. Redeploy the service");
    add_line(
        &mut list,
        "3. Or set THSR_PUBLIC_URL=https://YOUR-DOMAIN in Railway Variables",
    );
    add_line(&mut list, "=================================");
    list
}

/// What is logged when a CAPTCHA is to be typed.
pub open spec fn required_lines(url: Seq<char>) -> Seq<Seq<char>> {
    seq![
        ""@,
        "================================="@,
        "CAPTCHA REQUIRED"@,
        "================================="@,
        "Open this URL in your browser:"@,
        url,
        "Enter the CAPTCHA and press Submit."@,
        "================================="@,
    ]
}

/// What is logged when a CAPTCHA is to be typed.
pub fn required_notice(url: &str) -> (r: Vec<String>)
    ensures
        r.deep_view() == required_lines(url@),
{
    let mut list: Vec<String> = Vec::new();
    add_line(&mut list, "");
    add_line(&mut list, "=================================");
    add_line(&mut list, "CAPTCHA REQUIRED");
    add_line(&mut list, "=================================");
    add_line(&mut list, "Open this URL in your browser:");
    add_line(&mut list, url);
    add_line(&mut list, "Enter the CAPTCHA and press Submit.");
    add_line(&mut list, "=================================");
    list
}

/// The message that asks a person for the code.
pub open spec fn required_text(url: Seq<char>) -> Seq<char> {
    "🔐 THSR CAPTCHA required\n\n板橋 → 台中\n日期："@ + FIXED_DATE@
        + "\n發車條件：07:30～12:00\n\n請開啟驗證碼網址：\n"@ + url
        + "\n\n輸入 CAPTCHA 後按送出，程式會自動繼續。"@
}

/// The message that asks a person for the code.
pub fn required_message(url: &str) -> (r: String)
    ensures
        r@ == required_text(url@),
{
    let mut s: String = "🔐 THSR CAPTCHA required\n\n板橋 → 台中\n日期：".to_string();
    s.append(FIXED_DATE);
    s.append("\n發車條件：07:30～12:00\n\n請開啟驗證碼網址：\n");
    s.append(url);
    s.append("\n\n輸入 CAPTCHA 後按送出，程式會自動繼續。");
    s
}

/// How the code of a CAPTCHA is asked for.
pub enum Asking {
    /// Nobody could reach the page: this is logged, and the code is empty.
    GiveUp { notice: Vec<String> },
    /// The page is at `url`. This is logged, the message is sent, and the page
    /// is opened here where `open_browser` says so; then the code is waited for.
    Wait { url: String, notice: Vec<String>, message: String, open_browser: bool },
}

impl Surroundings {
    /// How the code of the CAPTCHA with the token is asked for.
    pub fn ask(&self, local_port: u16, token: &str) -> (r: Asking)
        ensures
            match self.page_url(local_port, token@) {
                Some(address) => {
                    &&& r matches Asking::Wait { url, notice, message, open_browser }
                    &&& url@ == address
                    &&& notice.deep_view() == required_lines(address)
                    &&& message@ == required_text(address)
                    &&& open_browser == self.opens_here()
                },
                None => {
                    &&& r matches Asking::GiveUp { notice }
                    &&& notice.deep_view() == unavailable_lines()
                },
            },
    {
        match self.captcha_url(local_port, token) {
            Some(url) => {
                let notice: Vec<String> = required_notice(url.as_str());
                let message: String = required_message(url.as_str());
                Asking::Wait { url, notice, message, open_browser: self.opens_browser() }
            },
            None => Asking::GiveUp { notice: unavailable_notice() },
        }
    }
}

/// On Railway the address of the page is a public one or there is none: it
/// never depends on the local port.
pub proof fn railway_page_is_public(s: Surroundings, port: u16, other: u16, token: Seq<char>)
    requires
        s.on_railway(),
    ensures
        s.page_url(port, token) == s.page_url(other, token),
        s.page_url(port, token) is Some <==> s.base_url() is Some,
{
}

proof fn lemma_trimmed_start_before(s: Seq<char>, c: char)
    requires
        !is_space(c),
    ensures
        trimmed_start(s.push(c)) == trimmed_start(s).push(c),
        trimmed_start(s).len() > 0 ==> trimmed_start(s).last() == s.last(),
    decreases s.len(),
{
    if s.len() > 0 && is_space(s[0]) {
        let t = s.drop_first();
        lemma_trimmed_start_before(t, c);
        assert(s.push(c).drop_first() =~= t.push(c));
    }
}

/// A slash at the end of the public address makes no difference, unless white
/// space stands between it and the address.
pub proof fn slash_makes_no_difference(value: Seq<char>)
    requires
        trimmed_start(value).len() > 0 ==> !is_space(value.last()),
    ensures
        as_base_url(value.push('/')) == as_base_url(value),
{
    let drop = |c: char| is_space(c);
    let slash = |c: char| c == '/';
    lemma_trimmed_start_before(value, '/');
    let t = trimmed_start(value);
    assert(trimmed_end_by(t, drop) == t);
    assert(trimmed_end_by(t.push('/'), drop) == t.push('/'));
    assert(t.push('/').drop_last() =~= t);
    assert(trimmed_end_by(t.push('/'), slash) == trimmed_end_by(t, slash));
}

/// Two CAPTCHAs of different processes or times have different tokens.
pub proof fn tokens_are_distinct(process: nat, time: nat, other_process: nat, other_time: nat)
    requires
        token_text(process, time) == token_text(other_process, other_time),
    ensures
        process == other_process,
        time == other_time,
{
    reveal_strlit("-");
    assert("-"@ =~= seq!['-']);
    lemma_decimal_digits(process);
    lemma_decimal_digits(other_process);
    lemma_cut_front(decimal(process), '-', decimal(time));
    lemma_cut_front(decimal(other_process), '-', decimal(other_time));
    lemma_decimal_digits(time);
    lemma_decimal_digits(other_time);
}

/// The environment gives no public address and does not name Railway.
pub open spec fn on_own_machine(s: Surroundings) -> bool {
    &&& s.public_url is None
    &&& s.public_domain is None
    &&& s.static_url is None
    &&& !s.environment_named
    &&& !s.project_known
}

proof fn lemma_no_slash(n: nat)
    ensures
        forall|i: int| 0 <= i < decimal(n).len() ==> #[trigger] decimal(n)[i] != '/',
{
    lemma_decimal_digits(n);
}

proof fn lemma_path(token: Seq<char>)
    ensures
        page_path(token) == seq!['/'] + (seq!['c', 'a', 'p', 't', 'c', 'h', 'a', '/'] + token
            + seq!['/']),
{
    reveal_strlit("/captcha/");
    reveal_strlit("/");
    assert(page_path(token) =~= seq!['/'] + (seq!['c', 'a', 'p', 't', 'c', 'h', 'a', '/'] + token
        + seq!['/']));
}

/// On a person's own machine the page is asked of this machine, at the port on
/// which the server listens: the port is read back off the address, and behind
/// it stands the path of the page.
pub proof fn local_address_names_the_port(s: Surroundings, port: u16, token: Seq<char>)
    requires
        on_own_machine(s),
    ensures
        s.page_url(port, token) matches Some(url) && {
            let host = "http://127.0.0.1:"@;
            &&& host.is_prefix_of(url)
            &&& cut(url.skip(host.len() as int), '/') matches Some((shown, path))
            &&& number(shown, 65535) == Some(port as nat)
            &&& path == seq!['c', 'a', 'p', 't', 'c', 'h', 'a', '/'] + token + seq!['/']
        },
{
    let host = "http://127.0.0.1:"@;
    let url = s.page_url(port, token).unwrap();
    let shown = decimal(port as nat);
    let path = seq!['c', 'a', 'p', 't', 'c', 'h', 'a', '/'] + token + seq!['/'];
    lemma_path(token);
    assert(url.skip(host.len() as int) =~= shown + seq!['/'] + path);
    assert(host =~= url.subrange(0, host.len() as int));
    lemma_no_slash(port as nat);
    lemma_cut_front(shown, '/', path);
    number_reads_decimal(port as nat, 65535);
}

/// Different ports have different addresses, and so have different tokens.
pub proof fn local_addresses_differ(
    s: Surroundings,
    port: u16,
    other: u16,
    token: Seq<char>,
    another: Seq<char>,
)
    requires
        on_own_machine(s),
        s.page_url(port, token) == s.page_url(other, another),
    ensures
        port == other,
        token == another,
{
    local_address_names_the_port(s, port, token);
    local_address_names_the_port(s, other, another);
    let front = seq!['c', 'a', 'p', 't', 'c', 'h', 'a', '/'];
    let a = front + token + seq!['/'];
    let b = front + another + seq!['/'];
    assert(a == b);
    assert(a.subrange(8, a.len() - 1) =~= token);
    assert(b.subrange(8, b.len() - 1) =~= another);
}

/// A number of slashes.
pub open spec fn slashes(n: nat) -> Seq<char> {
    Seq::new(n, |i: int| '/')
}

proof fn lemma_without_slashes(s: Seq<char>, n: nat)
    requires
        s.len() > 0 ==> s.last() != '/',
    ensures
        without_slashes(s + slashes(n)) == s,
    decreases n,
{
    if n == 0 {
        assert(s + slashes(0) =~= s);
    } else {
        lemma_without_slashes(s, (n - 1) as nat);
        assert((s + slashes(n)).drop_last() =~= s + slashes((n - 1) as nat));
    }
}

/// The page stands under the public address that was given, whatever white
/// space is around it and however many slashes end it, by HTTPS where the
/// address does not say by what.
pub proof fn public_address_is_used(
    s: Surroundings,
    port: u16,
    token: Seq<char>,
    before: Seq<char>,
    address: Seq<char>,
    n: nat,
    after: Seq<char>,
)
    requires
        s.public_url matches Some(value) && value@ == before + (address + slashes(n)) + after,
        all_space(before),
        all_space(after),
        address.len() > 0,
        !is_space(address[0]),
        !is_space(address.last()),
        address.last() != '/',
    ensures
        s.page_url(port, token) == Some(
            (if "http://"@.is_prefix_of(address) || "https://"@.is_prefix_of(address) {
                address
            } else {
                "https://"@ + address
            }) + seq!['/', 'c', 'a', 'p', 't', 'c', 'h', 'a', '/'] + token + seq!['/'],
        ),
{
    let t = address + slashes(n);
    assert(t[0] == address[0]);
    assert(t.last() == if n == 0 {
        address.last()
    } else {
        '/'
    });
    trimming_takes_white_space(before, t, after);
    lemma_without_slashes(address, n);
    let base = if "http://"@.is_prefix_of(address) || "https://"@.is_prefix_of(address) {
        address
    } else {
        "https://"@ + address
    };
    assert(base.last() == address.last());
    lemma_without_slashes(base, 0);
    assert(base + slashes(0) =~= base);
    lemma_path(token);
    assert(base + page_path(token) =~= base + seq!['/', 'c', 'a', 'p', 't', 'c', 'h', 'a', '/']
        + token + seq!['/']);
}

/// The address that was given comes before the domain, and the domain before
/// the static address: where one is there, those behind it do not matter, and
/// each is used in the same way.
pub proof fn public_addresses_have_an_order(
    a: Surroundings,
    b: Surroundings,
    port: u16,
    other: u16,
    token: Seq<char>,
)
    requires
        ({
            let first = if a.public_url is Some {
                a.public_url
            } else if a.public_domain is Some {
                a.public_domain
            } else {
                a.static_url
            };
            first is Some && first == b.public_url
        }),
    ensures
        a.page_url(port, token) == b.page_url(other, token),
{
}

/// Without any public address there is a page only off Railway; with one there
/// always is.
pub proof fn page_is_missing_only_on_railway(s: Surroundings, port: u16, token: Seq<char>)
    ensures
        s.page_url(port, token) is None <==> s.public_url is None && s.public_domain is None
            && s.static_url is None && (s.environment_named || s.project_known),
{
}

/// The server listens on all addresses of the machine, at the port that was
/// given as it was given, and at any free one where none was.
pub proof fn given_port_is_listened_on(port: Seq<char>)
    ensures
        "0.0.0.0:"@.is_prefix_of(address_text(Some(port))),
        address_text(Some(port)).skip("0.0.0.0:"@.len() as int) == port,
        address_text(None) == address_text(Some("0"@)),
{
    assert(address_text(Some(port)).subrange(0, "0.0.0.0:"@.len() as int) =~= "0.0.0.0:"@);
    assert(address_text(Some(port)).skip("0.0.0.0:"@.len() as int) =~= port);
}

/// These stand before and behind the address in every message that asks for a
/// code.
pub open spec fn frames_message(front: Seq<char>, end: Seq<char>) -> bool {
    forall|url: Seq<char>| #[trigger] required_text(url) == front + url + end
}

/// The message that asks for a code is the same for every address, but for the
/// address, which stands in it in full; and so are the lines that are logged.
pub proof fn address_is_told(url: Seq<char>, other: Seq<char>)
    ensures
        exists|front: Seq<char>, end: Seq<char>| frames_message(front, end),
        required_lines(url).contains(url),
        required_lines(url).len() == required_lines(other).len(),
        forall|i: int|
            0 <= i < required_lines(url).len() ==> #[trigger] required_lines(url)[i]
                == required_lines(other)[i] || (required_lines(url)[i] == url && required_lines(
                other,
            )[i] == other),
{
    let front = "🔐 THSR CAPTCHA required\n\n板橋 → 台中\n日期："@ + FIXED_DATE@
        + "\n發車條件：07:30～12:00\n\n請開啟驗證碼網址：\n"@;
    let end = "\n\n輸入 CAPTCHA 後按送出，程式會自動繼續。"@;
    assert(frames_message(front, end));
    assert(required_lines(url)[5] == url);
}

/// A browser is opened exactly on a person's own machine: never on Railway, and
/// never where the page has a public address.
pub proof fn browser_is_opened_on_own_machines_alone(s: Surroundings)
    ensures
        s.opens_here() <==> on_own_machine(s),
{
}

} // verus!
