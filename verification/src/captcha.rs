//! The page on which a person types the CAPTCHA: how its requests are read and
//! answered.
use vstd::prelude::*;
use vstd::string::*;
use vstd::utf8::*;
use crate::base64::{base64, base64_encode};
use crate::form::{
    decodable, decoding_undoes_encoding, encoded_form, field_of_encoded_form, field_text,
    form_field, form_value, is_decodable, lemma_encode_utf8_both, looked_up, plain, plain_byte,
    raw_field, raw_field_of_encoded_pair, read_text, text_of,
};
use crate::number::{
    decimal, decimal_padded, is_digit, lemma_decimal_digits, number, number_reads_decimal_padded,
    read_number, write_decimal, zeros_stand_before,
};
use crate::text::{
    all_space, cut, cutting_finds_the_first, equal_but_for_case, is_line, is_space,
    lemma_cut_front, lines, lines_are_found, lines_of, only_case_may_differ, only_white_space_trims_to_nothing, same,
    same_but_for_case, split_once, starts_with, trim, trimmed, trimming_is_idempotent,
    trimming_takes_white_space, with_endings,
};

verus! {

/// How many bytes a request may have before its head is found, and beyond its
/// announced end.
pub const LIMIT: usize = 65536;

/// An empty line stands at `i`: two line endings, one behind the other.
pub open spec fn empty_line_at(b: Seq<u8>, i: int) -> bool {
    &&& 0 <= i
    &&& i + 4 <= b.len()
    &&& b[i] == 13
    &&& b[i + 1] == 10
    &&& b[i + 2] == 13
    &&& b[i + 3] == 10
}

/// Where the head of a request ends: behind the first empty line from `i` on.
pub open spec fn head_end_from(b: Seq<u8>, i: nat) -> Option<nat>
    decreases b.len() - i,
{
    if i + 4 > b.len() {
        None
    } else if empty_line_at(b, i as int) {
        Some(i + 4)
    } else {
        head_end_from(b, i + 1)
    }
}

/// The length of the head of a request; nothing while its end is not there.
pub open spec fn head_end(b: Seq<u8>) -> Option<nat> {
    head_end_from(b, 0)
}

/// The length that a header line announces for the body.
pub open spec fn announced_length(line: Seq<char>) -> Option<nat> {
    match cut(line, ':') {
        Some((name, value)) => if equal_but_for_case(name, "content-length"@) {
            number(trimmed(value), usize::MAX as nat)
        } else {
            None
        },
        None => None,
    }
}

/// The length of the body: what the first line that announces one says, and 0
/// where none does.
pub open spec fn body_length(head: Seq<Seq<char>>) -> nat
    decreases head.len(),
{
    if head.len() == 0 {
        0
    } else {
        match announced_length(head[0]) {
            Some(n) => n,
            None => body_length(head.drop_first()),
        }
    }
}

/// The lines of the head of a request.
pub open spec fn head_lines(b: Seq<u8>, end: int) -> Seq<Seq<char>> {
    lines_of(text_of(b.subrange(0, end)))
}

/// The first line of a head, empty where it has none.
pub open spec fn request_line(head: Seq<Seq<char>>) -> Seq<char> {
    if head.len() > 0 {
        head[0]
    } else {
        seq![]
    }
}

/// The sum, or the largest number where the sum is larger.
pub open spec fn capped_sum(a: int, b: int) -> int {
    if a + b <= usize::MAX {
        a + b
    } else {
        usize::MAX as int
    }
}

/// How many bytes make the request whole, once its head is there.
pub open spec fn whole_length(b: Seq<u8>, end: nat) -> int {
    capped_sum(end as int, body_length(head_lines(b, end as int)) as int)
}

/// What follows from a piece of a request that has arrived.
#[derive(Clone, Copy, Debug, PartialEq, Eq, Structural)]
pub enum ReadStep {
    /// More has to be read.
    More,
    /// The connection is left without an answer.
    Leave,
    /// The request is to be answered.
    Answer,
}

/// What follows where `buffer` has been read and `chunk` arrives: an empty one
/// when the other side has closed. The head is read first, and then the number
/// of bytes that it announces.
pub open spec fn read_step(buffer: Seq<u8>, chunk: Seq<u8>) -> ReadStep {
    let b = buffer + chunk;
    match head_end(buffer) {
        None => if chunk.len() == 0 {
            ReadStep::Leave
        } else {
            match head_end(b) {
                Some(end) => if b.len() < whole_length(b, end) {
                    ReadStep::More
                } else {
                    ReadStep::Answer
                },
                None => if b.len() > LIMIT {
                    ReadStep::Leave
                } else {
                    ReadStep::More
                },
            }
        },
        Some(end) => {
            let whole = whole_length(buffer, end);
            if chunk.len() == 0 {
                ReadStep::Answer
            } else if b.len() > capped_sum(whole, LIMIT as int) {
                ReadStep::Leave
            } else if b.len() < whole {
                ReadStep::More
            } else {
                ReadStep::Answer
            }
        },
    }
}

/// The head of a request: where it ends, its first line, and the length that it
/// announces for the body.
struct Head {
    end: usize,
    line: String,
    body_length: usize,
}

impl Head {
    /// This is the head of the request in `b`.
    spec fn is_head_of(self, b: Seq<u8>) -> bool {
        &&& head_end(b) == Some(self.end as nat)
        &&& self.line@ == request_line(head_lines(b, self.end as int))
        &&& self.body_length == body_length(head_lines(b, self.end as int))
    }
}

proof fn lemma_head_end_from(b: Seq<u8>, i: nat, k: nat)
    requires
        i <= k,
        empty_line_at(b, k as int),
        forall|j: int| i <= j < k ==> !#[trigger] empty_line_at(b, j),
    ensures
        head_end_from(b, i) == Some(k + 4),
    decreases k - i,
{
    if i < k {
        assert(!empty_line_at(b, i as int));
        lemma_head_end_from(b, i + 1, k);
    }
}

proof fn lemma_no_head_end_from(b: Seq<u8>, i: nat)
    requires
        forall|j: int| i <= j ==> !#[trigger] empty_line_at(b, j),
    ensures
        head_end_from(b, i) is None,
    decreases b.len() - i,
{
    if i + 4 <= b.len() {
        assert(!empty_line_at(b, i as int));
        lemma_no_head_end_from(b, i + 1);
    }
}

proof fn lemma_head_end_is_first(b: Seq<u8>, i: nat)
    ensures
        match head_end_from(b, i) {
            Some(end) => i + 4 <= end <= b.len() && empty_line_at(b, end - 4) && forall|j: int|
                i <= j < end - 4 ==> !#[trigger] empty_line_at(b, j),
            None => forall|j: int| i <= j ==> !#[trigger] empty_line_at(b, j),
        },
    decreases b.len() - i,
{
    if i + 4 <= b.len() && !empty_line_at(b, i as int) {
        lemma_head_end_is_first(b, i + 1);
    }
}

/// Where the head of a request ends, and what it says, does not change when
/// more bytes arrive.
pub proof fn head_is_stable(b: Seq<u8>, more: Seq<u8>)
    requires
        head_end(b) is Some,
    ensures
        head_end(b + more) == head_end(b),
        head_lines(b + more, head_end(b).unwrap() as int) == head_lines(
            b,
            head_end(b).unwrap() as int,
        ),
{
    let end = head_end(b).unwrap();
    let c = b + more;
    lemma_head_end_is_first(b, 0);
    assert(empty_line_at(c, end - 4)) by {
        assert(forall|j: int| 0 <= j < b.len() ==> c[j] == b[j]);
    }
    assert forall|j: int| 0 <= j < end - 4 implies !#[trigger] empty_line_at(c, j) by {
        assert(!empty_line_at(b, j));
        assert(c[j] == b[j] && c[j + 1] == b[j + 1] && c[j + 2] == b[j + 2] && c[j + 3] == b[j
            + 3]);
    }
    lemma_head_end_from(c, 0, (end - 4) as nat);
    assert(c.subrange(0, end as int) =~= b.subrange(0, end as int));
}

fn find_head_end(b: &Vec<u8>) -> (r: Option<usize>)
    ensures
        match r {
            Some(end) => head_end(b@) == Some(end as nat) && end <= b.len(),
            None => head_end(b@) is None,
        },
{
    let mut i: usize = 0;
    while b.len() >= 4 && i <= b.len() - 4
        invariant
            i <= b.len(),
            forall|j: int| 0 <= j < i ==> !#[trigger] empty_line_at(b@, j),
        decreases b.len() - i,
    {
        if b[i] == 13 && b[i + 1] == 10 && b[i + 2] == 13 && b[i + 3] == 10 {
            proof {
                lemma_head_end_from(b@, 0, i as nat);
            }
            return Some(i + 4);
        }
        i = i + 1;
    }
    proof {
        lemma_no_head_end_from(b@, 0);
    }
    None
}

fn length_in(line: &str) -> (r: Option<usize>)
    ensures
        match r {
            Some(n) => announced_length(line@) == Some(n as nat),
            None => announced_length(line@) is None,
        },
{
    match split_once(line, ':') {
        Some((name, value)) => if same_but_for_case(name, "content-length") {
            match read_number(trim(value), usize::MAX as u64) {
                Some(n) => Some(n as usize),
                None => None,
            }
        } else {
            None
        },
        None => None,
    }
}

fn read_head(b: &Vec<u8>, end: usize) -> (r: Head)
    requires
        head_end(b@) == Some(end as nat),
        end <= b.len(),
    ensures
        r.is_head_of(b@),
        r.end == end,
{
    let head: Vec<String> = lines(read_text(&b.as_slice()[0..end]).as_str());
    let ghost all = head.deep_view();
    let line: String = if head.len() > 0 { head[0].clone() } else { String::new() };
    let mut i: usize = 0;
    assert(all.skip(0) =~= all);
    while i < head.len()
        invariant
            head_end(b@) == Some(end as nat),
            all == head.deep_view(),
            all == head_lines(b@, end as int),
            line@ == request_line(all),
            i <= head.len(),
            body_length(all) == body_length(all.skip(i as int)),
        decreases head.len() - i,
    {
        assert(all.skip(i as int)[0] == head@[i as int]@);
        assert(all.skip(i as int).drop_first() =~= all.skip(i + 1));
        if let Some(n) = length_in(head[i].as_str()) {
            return Head { end, line, body_length: n };
        }
        i = i + 1;
    }
    Head { end, line, body_length: 0 }
}

/// A request as it arrives, piece by piece.
pub struct RequestReader {
    buffer: Vec<u8>,
    head: Option<Head>,
}

impl View for RequestReader {
    type V = Seq<u8>;

    /// The bytes that have arrived.
    closed spec fn view(&self) -> Seq<u8> {
        self.buffer@
    }
}

impl RequestReader {
    /// The head is known as soon as its end has arrived.
    pub closed spec fn wf(self) -> bool {
        match self.head {
            Some(head) => head.is_head_of(self.buffer@) && head.end <= self.buffer@.len(),
            None => head_end(self.buffer@) is None,
        }
    }

    /// A reader to which nothing has come yet.
    pub fn new() -> (r: Self)
        ensures
            r.wf(),
            r@ == Seq::<u8>::empty(),
    {
        RequestReader { buffer: Vec::new(), head: None }
    }

    /// Takes the next piece, an empty one when the other side has closed, and
    /// says what follows.
    pub fn read(&mut self, chunk: &[u8]) -> (r: ReadStep)
        requires
            old(self).wf(),
        ensures
            final(self).wf(),
            final(self)@ == old(self)@ + chunk@,
            r == read_step(old(self)@, chunk@),
    {
        let ghost before = self.buffer@;
        self.buffer.extend_from_slice(chunk);
        proof {
            assert(self.buffer@ =~= before + chunk@);
            if head_end(before) is Some {
                head_is_stable(before, chunk@);
            }
        }
        match &self.head {
            Some(head) => {
                let whole: usize = head.end.saturating_add(head.body_length);
                if chunk.len() == 0 {
                    ReadStep::Answer
                } else if self.buffer.len() > whole.saturating_add(LIMIT) {
                    ReadStep::Leave
                } else if self.buffer.len() < whole {
                    ReadStep::More
                } else {
                    ReadStep::Answer
                }
            },
            None => {
                if chunk.len() == 0 {
                    proof {
                        assert(self.buffer@ =~= before);
                    }
                    return ReadStep::Leave;
                }
                match find_head_end(&self.buffer) {
                    Some(end) => {
                        let head: Head = read_head(&self.buffer, end);
                        let whole: usize = head.end.saturating_add(head.body_length);
                        self.head = Some(head);
                        if self.buffer.len() < whole {
                            ReadStep::More
                        } else {
                            ReadStep::Answer
                        }
                    },
                    None => if self.buffer.len() > LIMIT {
                        ReadStep::Leave
                    } else {
                        ReadStep::More
                    },
                }
            },
        }
    }
}

/// What the root of the server shows.
pub const RUNNING_PAGE: &'static str =
    "<html><body><h3>THSR Auto Booking is running.</h3></body></html>";

/// What is shown when a code has been received.
pub const RECEIVED_PAGE: &'static str =
    "<html><body><h2>CAPTCHA received.</h2><p>訂票程式已收到驗證碼，可以關閉此分頁。</p></body></html>";

/// The page that shows the CAPTCHA and asks for its code, the image inside it.
pub open spec fn form_page(token: Seq<char>, image: Seq<u8>) -> Seq<char> {
    "<!doctype html><html><head><meta charset=\"utf-8\"><meta name=\"viewport\" content=\"width=device-width,initial-scale=1\"><title>THSR CAPTCHA</title></head><body style=\"font-family:sans-serif;max-width:520px;margin:40px auto;padding:20px\"><h2>台灣高鐵驗證碼</h2><p>請看圖片輸入驗證碼：</p><img src=\"data:image/jpeg;base64,"@
        + base64(image)
        + "\" alt=\"CAPTCHA\" style=\"max-width:100%;image-rendering:auto;border:1px solid #ccc\"><form method=\"post\" action=\"/captcha/"@
        + token
        + "/\" style=\"margin-top:20px\"><input name=\"code\" autocomplete=\"off\" autofocus style=\"font-size:24px;width:180px\"><button type=\"submit\" style=\"font-size:20px;margin-left:8px\">送出</button></form></body></html>"@
}

/// The page that shows the CAPTCHA and asks for its code.
pub fn captcha_html(token: &str, image: &[u8]) -> (r: String)
    ensures
        r@ == form_page(token@, image@),
{
    let mut s: String = "<!doctype html><html><head><meta charset=\"utf-8\"><meta name=\"viewport\" content=\"width=device-width,initial-scale=1\"><title>THSR CAPTCHA</title></head><body style=\"font-family:sans-serif;max-width:520px;margin:40px auto;padding:20px\"><h2>台灣高鐵驗證碼</h2><p>請看圖片輸入驗證碼：</p><img src=\"data:image/jpeg;base64,".to_string();
    s.append(base64_encode(image).as_str());
    s.append(
        "\" alt=\"CAPTCHA\" style=\"max-width:100%;image-rendering:auto;border:1px solid #ccc\"><form method=\"post\" action=\"/captcha/",
    );
    s.append(token);
    s.append(
        "/\" style=\"margin-top:20px\"><input name=\"code\" autocomplete=\"off\" autofocus style=\"font-size:24px;width:180px\"><button type=\"submit\" style=\"font-size:20px;margin-left:8px\">送出</button></form></body></html>",
    );
    s
}

/// The answer to a request: the page that is shown and the code that was
/// received with it, if one was.
pub struct Reply {
    pub html: String,
    pub code: Option<String>,
}

impl DeepView for Reply {
    type V = (Seq<char>, Option<Seq<char>>);

    open spec fn deep_view(&self) -> Self::V {
        (self.html@, self.code.deep_view())
    }
}

/// The body of a request: what it announces, as far as it has arrived.
pub open spec fn request_body(b: Seq<u8>, end: nat) -> Seq<u8> {
    let whole = whole_length(b, end);
    b.subrange(
        end as int,
        if whole <= b.len() {
            whole
        } else {
            b.len() as int
        },
    )
}

/// The path of the page of a token.
pub open spec fn page_path(token: Seq<char>) -> Seq<char> {
    "/captcha/"@ + token + "/"@
}

/// The path of the page of a token.
pub fn write_page_path(token: &str) -> (r: String)
    ensures
        r@ == page_path(token@),
{
    let mut s: String = "/captcha/".to_string();
    s.append(token);
    s.append("/");
    s
}

/// The start of the request line with which a method asks for the page of a
/// token.
pub open spec fn asks_for(method: Seq<char>, token: Seq<char>) -> Seq<char> {
    method + " "@ + page_path(token) + " "@
}

/// The answer to the request in `b`. The root says that the server runs. A code
/// posted for the token is received, without the white space around it. Any
/// other request is shown the form. There is no answer where the posted code
/// cannot be decoded.
pub open spec fn reply(b: Seq<u8>, end: nat, token: Seq<char>, image: Seq<u8>) -> Option<
    (Seq<char>, Option<Seq<char>>),
> {
    let line = request_line(head_lines(b, end as int));
    let body = text_of(request_body(b, end));
    if line == "GET / HTTP/1.1"@ || line == "GET / HTTP/1.0"@ {
        Some((RUNNING_PAGE@, None))
    } else if asks_for("POST"@, token).is_prefix_of(line) {
        if raw_field(body, "code"@) matches Some(value) && !decodable(value) {
            None
        } else {
            let code = trimmed(field_text(body, "code"@));
            if code.len() > 0 {
                Some((RECEIVED_PAGE@, Some(code)))
            } else {
                Some((form_page(token, image), None))
            }
        }
    } else {
        Some((form_page(token, image), None))
    }
}

fn asking(method: &str, token: &str) -> (r: String)
    ensures
        r@ == asks_for(method@, token@),
{
    let mut s: String = method.to_string();
    s.append(" ");
    s.append(write_page_path(token).as_str());
    s.append(" ");
    s
}

/// The answer to a posted form, given its body.
pub fn answer_post(body: &str, token: &str, image: &[u8]) -> (r: Option<Reply>)
    ensures
        r.deep_view() == (if raw_field(body@, "code"@) matches Some(value) && !decodable(value) {
            None
        } else {
            let code = trimmed(field_text(body@, "code"@));
            if code.len() > 0 {
                Some((RECEIVED_PAGE@, Some(code)))
            } else {
                Some((form_page(token@, image@), None))
            }
        }),
{
    if let Some(value) = form_field(body, "code") {
        if !is_decodable(value.as_str()) {
            return None;
        }
    }
    let text: String = form_value(body, "code");
    let code: &str = trim(text.as_str());
    if !code.is_empty() {
        Some(Reply { html: RECEIVED_PAGE.to_string(), code: Some(code.to_string()) })
    } else {
        Some(Reply { html: captcha_html(token, image), code: None })
    }
}

impl RequestReader {
    /// The answer to the request that has arrived; none where the head is not
    /// there or the posted code cannot be decoded.
    pub fn respond(&self, token: &str, image: &[u8]) -> (r: Option<Reply>)
        requires
            self.wf(),
        ensures
            r.deep_view() == (match head_end(self@) {
                Some(end) => reply(self@, end, token@, image@),
                None => None,
            }),
    {
        let head: &Head = match &self.head {
            Some(head) => head,
            None => return None,
        };
        let line: &str = head.line.as_str();
        if same(line, "GET / HTTP/1.1") || same(line, "GET / HTTP/1.0") {
            return Some(Reply { html: RUNNING_PAGE.to_string(), code: None });
        }
        if starts_with(line, asking("POST", token).as_str()) {
            let whole: usize = head.end.saturating_add(head.body_length);
            let stop: usize = if whole <= self.buffer.len() { whole } else { self.buffer.len() };
            let body: String = read_text(&self.buffer.as_slice()[head.end..stop]);
            return answer_post(body.as_str(), token, image);
        }
        Some(Reply { html: captcha_html(token, image), code: None })
    }
}

/// The bytes of an answer: status, type and length of the body, and the body.
pub open spec fn http_answer(status: Seq<char>, content_type: Seq<char>, body: Seq<u8>) -> Seq<u8> {
    encode_utf8(
        "HTTP/1.1 "@ + status + "\r\nContent-Type: "@ + content_type + "\r\nContent-Length: "@
            + decimal(body.len()) + "\r\nCache-Control: no-store\r\nConnection: close\r\n\r\n"@,
    ) + body
}

/// The bytes of an answer.
pub fn write_http(status: &str, content_type: &str, body: &[u8]) -> (r: Vec<u8>)
    ensures
        r@ == http_answer(status@, content_type@, body@),
{
    let mut head: String = "HTTP/1.1 ".to_string();
    head.append(status);
    head.append("\r\nContent-Type: ");
    head.append(content_type);
    head.append("\r\nContent-Length: ");
    head.append(write_decimal(body.len() as u128).as_str());
    head.append("\r\nCache-Control: no-store\r\nConnection: close\r\n\r\n");
    let mut out: Vec<u8> = head.as_str().as_bytes_vec();
    let ghost h = out@;
    out.extend_from_slice(body);
    assert(out@ =~= h + body@);
    out
}

/// The answer that shows a page.
pub fn answer_page(reply: &Reply) -> (r: Vec<u8>)
    ensures
        r@ == http_answer("200 OK"@, "text/html; charset=utf-8"@, encode_utf8(reply.html@)),
{
    write_http("200 OK", "text/html; charset=utf-8", reply.html.as_str().as_bytes())
}

/// What is read when the pieces arrive one after the other: the last step and
/// the bytes that have been taken by then. Pieces behind the first step that is
/// not `More` are not read.
pub open spec fn read_pieces(buffer: Seq<u8>, chunks: Seq<Seq<u8>>) -> (ReadStep, Seq<u8>)
    decreases chunks.len(),
{
    if chunks.len() == 0 {
        (ReadStep::More, buffer)
    } else {
        match read_step(buffer, chunks[0]) {
            ReadStep::More => read_pieces(buffer + chunks[0], chunks.drop_first()),
            step => (step, buffer + chunks[0]),
        }
    }
}

/// A request with all the bytes that its head announces, and no more.
pub open spec fn is_whole(request: Seq<u8>) -> bool {
    match head_end(request) {
        Some(end) => request.len() == end + body_length(head_lines(request, end as int)),
        None => false,
    }
}

proof fn lemma_pieces(request: Seq<u8>, buffer: Seq<u8>, chunks: Seq<Seq<u8>>)
    requires
        is_whole(request),
        request.len() <= usize::MAX,
        head_end(request).unwrap() <= LIMIT + 1,
        forall|i: int| 0 <= i < chunks.len() ==> 0 < (#[trigger] chunks[i]).len(),
        buffer.len() < request.len(),
        request == buffer + chunks.flatten(),
    ensures
        read_pieces(buffer, chunks) == (ReadStep::Answer, request),
    decreases chunks.len(),
{
    let end = head_end(request).unwrap();
    if chunks.len() == 0 {
        assert(chunks.flatten() =~= seq![]);
    } else {
        let chunk = chunks[0];
        let rest = chunks.drop_first();
        assert(0 < chunk.len());
        assert(chunks.flatten() == chunk + rest.flatten());
        let b = buffer + chunk;
        assert(request =~= b + rest.flatten());
        assert(request =~= buffer + (chunk + rest.flatten()));
        if head_end(buffer) is Some {
            head_is_stable(buffer, chunk);
        }
        if head_end(b) is Some {
            head_is_stable(b, rest.flatten());
        } else {
            lemma_head_end_is_first(b, 0);
            lemma_head_end_is_first(request, 0);
            if b.len() >= end {
                assert(empty_line_at(b, end - 4)) by {
                    assert(forall|j: int| 0 <= j < b.len() ==> request[j] == b[j]);
                }
            }
            assert(b.len() < end);
        }
        if b.len() < request.len() {
            assert(read_step(buffer, chunk) == ReadStep::More);
            assert forall|i: int| 0 <= i < rest.len() implies 0 < (#[trigger] rest[i]).len() by {
                assert(rest[i] == chunks[i + 1]);
            }
            lemma_pieces(request, b, rest);
        } else {
            assert(b =~= request);
            assert(read_step(buffer, chunk) == ReadStep::Answer);
        }
    }
}

/// However the network cuts a request into pieces, it is read to its end and
/// then answered, and what has been read is the request.
pub proof fn pieces_do_not_matter(request: Seq<u8>, chunks: Seq<Seq<u8>>)
    requires
        is_whole(request),
        request.len() <= usize::MAX,
        head_end(request).unwrap() <= LIMIT + 1,
        forall|i: int| 0 <= i < chunks.len() ==> 0 < (#[trigger] chunks[i]).len(),
        chunks.flatten() == request,
    ensures
        read_pieces(seq![], chunks) == (ReadStep::Answer, request),
{
    lemma_head_end_is_first(request, 0);
    assert(request =~= Seq::<u8>::empty() + chunks.flatten());
    lemma_pieces(request, seq![], chunks);
}

/// Bytes that arrive behind the announced end of a request do not change the
/// answer.
pub proof fn later_bytes_do_not_matter(
    b: Seq<u8>,
    more: Seq<u8>,
    token: Seq<char>,
    image: Seq<u8>,
)
    requires
        head_end(b) is Some,
        whole_length(b, head_end(b).unwrap()) <= b.len() <= usize::MAX,
    ensures
        head_end(b + more) == head_end(b),
        reply(b + more, head_end(b).unwrap(), token, image) == reply(
            b,
            head_end(b).unwrap(),
            token,
            image,
        ),
{
    let end = head_end(b).unwrap();
    head_is_stable(b, more);
    lemma_head_end_is_first(b, 0);
    let whole = whole_length(b, end);
    assert(whole_length(b + more, end) == whole);
    assert((b + more).subrange(end as int, whole) =~= b.subrange(end as int, whole));
}

/// The code that a person types is received: a request that posts the form for
/// the token with the code in it is answered with the code, but for white space
/// around it.
pub proof fn posted_code_is_received(
    b: Seq<u8>,
    token: Seq<char>,
    image: Seq<u8>,
    code: Seq<char>,
)
    requires
        head_end(b) is Some,
        asks_for("POST"@, token).is_prefix_of(
            request_line(head_lines(b, head_end(b).unwrap() as int)),
        ),
        request_body(b, head_end(b).unwrap()) == encode_utf8(encoded_form(seq![("code"@, code)])),
        trimmed(code).len() > 0,
    ensures
        reply(b, head_end(b).unwrap(), token, image) == Some(
            (RECEIVED_PAGE@, Some(trimmed(code))),
        ),
{
    let end = head_end(b).unwrap();
    let line = request_line(head_lines(b, end as int));
    let form = encoded_form(seq![("code"@, code)]);
    encode_utf8_valid_utf8(form);
    encode_utf8_decode_utf8(form);
    reveal_strlit("code");
    assert(plain("code"@)) by {
        assert(is_ascii_chars("code"@));
        assert forall|i: int| 0 <= i < "code"@.len() implies plain_byte(
            #[trigger] "code"@[i] as u8,
        ) by {
            assert("code"@[i] == 'c' || "code"@[i] == 'o' || "code"@[i] == 'd' || "code"@[i]
                == 'e');
        }
    }
    field_of_encoded_form(seq![("code"@, code)], "code"@);
    raw_field_of_encoded_pair("code"@, code);
    decoding_undoes_encoding(code);
    assert(looked_up(seq![("code"@, code)], "code"@) == code);
    reveal_strlit("POST");
    reveal_strlit("GET / HTTP/1.1");
    reveal_strlit("GET / HTTP/1.0");
    let ask = asks_for("POST"@, token);
    assert(ask[0] == 'P');
    assert(line[0] == 'P') by {
        assert(line.subrange(0, ask.len() as int)[0] == ask[0]);
    }
}

/// The text can stand as a line in a head: it is not empty and holds no part of
/// a line ending.
pub open spec fn is_head_line(s: Seq<char>) -> bool {
    s.len() > 0 && !s.contains('\r') && !s.contains('\n')
}

/// The bytes of a request: the lines of its head, each with a line ending
/// behind it, an empty line, and the body.
pub open spec fn request_bytes(lines: Seq<Seq<char>>, body: Seq<u8>) -> Seq<u8> {
    head_bytes(lines) + body
}

/// The bytes of the head of a request.
pub open spec fn head_bytes(lines: Seq<Seq<char>>) -> Seq<u8> {
    encode_utf8(with_endings(lines, seq!['\r', '\n']) + seq!['\r', '\n'])
}

proof fn lemma_scalar_bytes(scalar: u32)
    requires
        is_scalar(scalar),
        scalar != 13,
        scalar != 10,
    ensures
        encode_scalar(scalar).len() > 0,
        forall|i: int|
            0 <= i < encode_scalar(scalar).len() ==> #[trigger] encode_scalar(scalar)[i] != 13
                && encode_scalar(scalar)[i] != 10,
{
    assert(scalar <= 0x7F && scalar != 13 && scalar != 10 ==> (scalar & 0x7F) as u8 != 13 && (scalar
        & 0x7F) as u8 != 10) by (bit_vector);
    assert((0xC0 | ((scalar >> 6) & 0x1F) as u8) >= 0x80) by (bit_vector);
    assert((0xE0 | ((scalar >> 12) & 0x0F) as u8) >= 0x80) by (bit_vector);
    assert((0xF0 | ((scalar >> 18) & 0x7) as u8) >= 0x80) by (bit_vector);
    assert((0x80 | (scalar & 0x3F) as u8) >= 0x80) by (bit_vector);
    assert((0x80 | ((scalar >> 6) & 0x3F) as u8) >= 0x80) by (bit_vector);
    assert((0x80 | ((scalar >> 12) & 0x3F) as u8) >= 0x80) by (bit_vector);
}

proof fn lemma_line_bytes(s: Seq<char>)
    requires
        !s.contains('\r'),
        !s.contains('\n'),
    ensures
        s.len() > 0 ==> encode_utf8(s).len() > 0,
        forall|i: int|
            0 <= i < encode_utf8(s).len() ==> #[trigger] encode_utf8(s)[i] != 13 && encode_utf8(
                s,
            )[i] != 10,
    decreases s.len(),
{
    if s.len() > 0 {
        let rest = s.drop_first();
        assert(s.contains(s[0]));
        assert forall|c: char| rest.contains(c) implies s.contains(c) by {
            let i = choose|i: int| 0 <= i < rest.len() && rest[i] == c;
            assert(s[i + 1] == c);
        }
        lemma_line_bytes(rest);
        lemma_char_is_scalar(s[0]);
        lemma_scalar_bytes(s[0] as u32);
        let a = encode_scalar(s[0] as u32);
        let b = encode_utf8(rest);
        assert forall|i: int| 0 <= i < (a + b).len() implies #[trigger] (a + b)[i] != 13 && (a
            + b)[i] != 10 by {
            if i < a.len() {
                assert((a + b)[i] == a[i]);
            } else {
                assert((a + b)[i] == b[i - a.len()]);
            }
        }
    }
}

proof fn lemma_char_is_scalar(c: char)
    ensures
        is_scalar(c as u32),
        c != '\r' ==> c as u32 != 13,
        c != '\n' ==> c as u32 != 10,
{
}

proof fn lemma_ending_bytes()
    ensures
        encode_utf8(seq!['\r', '\n']) == seq![13u8, 10u8],
{
    let s = seq!['\r', '\n'];
    is_ascii_chars_encode_utf8(s);
    assert(encode_utf8(s)[0] == s[0] as u8);
    assert(encode_utf8(s)[1] == s[1] as u8);
    assert(encode_utf8(s) =~= seq![13u8, 10u8]);
}

proof fn lemma_head_bytes(lines: Seq<Seq<char>>, body: Seq<u8>)
    requires
        lines.len() > 0,
        forall|i: int| 0 <= i < lines.len() ==> is_head_line(#[trigger] lines[i]),
    ensures
        ({
            let b = request_bytes(lines, body);
            let end = head_bytes(lines).len();
            &&& end >= 4
            &&& empty_line_at(b, end - 4)
            &&& forall|j: int| 0 <= j < end - 4 ==> !#[trigger] empty_line_at(b, j)
            &&& b[0] != 13
        }),
    decreases lines.len(),
{
    let crlf = seq!['\r', '\n'];
    let line = lines[0];
    let rest = lines.drop_first();
    assert(is_head_line(line));
    lemma_line_bytes(line);
    lemma_ending_bytes();
    let l = encode_utf8(line);
    let n = l.len() as int;
    let behind = with_endings(rest, crlf) + crlf;
    assert(with_endings(lines, crlf) + crlf =~= line + (crlf + behind));
    lemma_encode_utf8_both(line, crlf + behind);
    lemma_encode_utf8_both(crlf, behind);
    let b = request_bytes(lines, body);
    let end = head_bytes(lines).len();
    assert(head_bytes(lines) =~= l + (seq![13u8, 10u8] + encode_utf8(behind)));
    assert forall|j: int| 0 <= j < n implies #[trigger] b[j] != 13 by {
        assert(b[j] == l[j]);
    }
    assert(b[n] == 13 && b[n + 1] == 10);
    if rest.len() == 0 {
        assert(behind =~= crlf);
        assert(b[n + 2] == 13 && b[n + 3] == 10);
        assert(end == n + 4);
    } else {
        assert forall|i: int| 0 <= i < rest.len() implies is_head_line(#[trigger] rest[i]) by {
            assert(rest[i] == lines[i + 1]);
        }
        lemma_head_bytes(rest, body);
        let c = request_bytes(rest, body);
        assert(end == n + 2 + head_bytes(rest).len());
        assert forall|j: int| 0 <= j < c.len() implies #[trigger] c[j] == b[n + 2 + j] by {}
        assert(b.len() == n + 2 + c.len());
        assert(c[0] == b[n + 2]);
        let e = head_bytes(rest).len() - 4;
        assert(empty_line_at(c, e));
        assert(c[e] == b[n + 2 + e] && c[e + 1] == b[n + 2 + e + 1] && c[e + 2] == b[n + 2 + e + 2]
            && c[e + 3] == b[n + 2 + e + 3]);
        assert(empty_line_at(b, end - 4));
        assert forall|j: int| 0 <= j < end - 4 implies !#[trigger] empty_line_at(b, j) by {
            if j >= n + 2 {
                let k = j - n - 2;
                assert(!empty_line_at(c, k));
                if empty_line_at(b, j) {
                    assert(c[k] == b[n + 2 + k] && c[k + 1] == b[n + 2 + (k + 1)] && c[k + 2] == b[n
                        + 2 + (k + 2)] && c[k + 3] == b[n + 2 + (k + 3)]);
                }
            }
        }
    }
}

/// The head of a request is found by its bytes, and its lines are those that
/// were sent, however many they are, and an empty one behind them.
pub proof fn head_is_found(lines: Seq<Seq<char>>, body: Seq<u8>)
    requires
        lines.len() > 0,
        forall|i: int| 0 <= i < lines.len() ==> is_head_line(#[trigger] lines[i]),
    ensures
        head_end(request_bytes(lines, body)) == Some(head_bytes(lines).len()),
        head_lines(request_bytes(lines, body), head_bytes(lines).len() as int) == lines.push(
            seq![],
        ),
{
    let b = request_bytes(lines, body);
    let head = head_bytes(lines);
    let crlf = seq!['\r', '\n'];
    lemma_head_bytes(lines, body);
    lemma_head_end_from(b, 0, (head.len() - 4) as nat);
    assert(b.subrange(0, head.len() as int) =~= head);
    let text = with_endings(lines, crlf) + crlf;
    encode_utf8_valid_utf8(text);
    encode_utf8_decode_utf8(text);
    assert forall|i: int| 0 <= i < lines.len() implies is_line(#[trigger] lines[i]) by {
        assert(is_head_line(lines[i]));
        assert(lines[i].contains(lines[i].last()));
    }
    lines_are_found(lines, crlf, crlf);
    let empty = Seq::<char>::empty();
    assert(!empty.contains('\n'));
    lines_are_found(seq![empty], crlf, seq![]);
    assert(seq![empty].drop_first() =~= seq![]);
    assert(with_endings(seq![empty], crlf) + seq![] =~= crlf) by {
        assert(with_endings(seq![empty].drop_first(), crlf) =~= seq![]);
    }
    assert(lines_of(seq![]) =~= seq![]);
    assert(lines_of(crlf) =~= seq![empty]);
    assert(lines + seq![empty] =~= lines.push(empty));
}

/// The name is `Content-Length`, in any case of its letters.
pub open spec fn names_length(name: Seq<char>) -> bool {
    &&& name.len() == "content-length"@.len()
    &&& forall|i: int|
        0 <= i < name.len() ==> {
            ||| #[trigger] name[i] == "content-length"@[i]
            ||| 'A' <= name[i] <= 'Z' && name[i] as u32 + 32 == "content-length"@[i] as u32
        }
}

/// No part of the line that ends before its first colon is `Content-Length`.
pub open spec fn says_no_length(line: Seq<char>) -> bool {
    forall|k: int|
        0 <= k < line.len() && #[trigger] line[k] == ':' && !line.subrange(0, k).contains(':')
            ==> !names_length(line.subrange(0, k))
}

proof fn lemma_names_length(name: Seq<char>)
    ensures
        names_length(name) == equal_but_for_case(name, "content-length"@),
{
    reveal_strlit("content-length");
    let low = "content-length"@;
    only_case_may_differ(name, low);
    if equal_but_for_case(name, low) {
        assert forall|i: int| 0 <= i < name.len() implies {
            ||| #[trigger] name[i] == low[i]
            ||| 'A' <= name[i] <= 'Z' && name[i] as u32 + 32 == low[i] as u32
        } by {
            let c = low[i];
            assert(c == 'c' || c == 'o' || c == 'n' || c == 't' || c == 'e' || c == '-' || c == 'l'
                || c == 'g' || c == 'h');
        }
    }
}

proof fn lemma_says_no_length(line: Seq<char>)
    requires
        says_no_length(line),
    ensures
        announced_length(line) is None,
{
    cutting_finds_the_first(line, ':');
    if let Some((a, b)) = cut(line, ':') {
        let k = a.len() as int;
        assert(line[k] == ':');
        assert(line.subrange(0, k) =~= a);
        lemma_names_length(a);
    }
}

proof fn lemma_skipped_lines(before: Seq<Seq<char>>, rest: Seq<Seq<char>>)
    requires
        forall|i: int| 0 <= i < before.len() ==> says_no_length(#[trigger] before[i]),
    ensures
        body_length(before + rest) == body_length(rest),
    decreases before.len(),
{
    if before.len() == 0 {
        assert(before + rest =~= rest);
    } else {
        let tail = before.drop_first();
        assert forall|i: int| 0 <= i < tail.len() implies says_no_length(#[trigger] tail[i]) by {
            assert(tail[i] == before[i + 1]);
        }
        lemma_skipped_lines(tail, rest);
        lemma_says_no_length(before[0]);
        assert((before + rest)[0] == before[0]);
        assert((before + rest).drop_first() =~= tail + rest);
    }
}

/// A line that announces a length: the name, a colon, and the number with white
/// space around it.
pub open spec fn length_line(
    name: Seq<char>,
    space: Seq<char>,
    n: nat,
    width: nat,
    more_space: Seq<char>,
) -> Seq<char> {
    name + seq![':'] + (space + decimal_padded(n, width) + more_space)
}

/// The length of the body is what the first line named `Content-Length` says,
/// in whatever case, however many lines stand before it and behind it.
pub proof fn announced_length_is_found(
    before: Seq<Seq<char>>,
    name: Seq<char>,
    space: Seq<char>,
    n: nat,
    width: nat,
    more_space: Seq<char>,
    after: Seq<Seq<char>>,
)
    requires
        forall|i: int| 0 <= i < before.len() ==> says_no_length(#[trigger] before[i]),
        names_length(name),
        all_space(space),
        all_space(more_space),
        n <= usize::MAX,
    ensures
        body_length(before + seq![length_line(name, space, n, width, more_space)] + after) == n,
{
    let value = space + decimal_padded(n, width) + more_space;
    let line = length_line(name, space, n, width, more_space);
    let rest = seq![line] + after;
    lemma_names_length(name);
    reveal_strlit("content-length");
    assert forall|i: int| 0 <= i < name.len() implies #[trigger] name[i] != ':' by {
        let c = "content-length"@[i];
        assert(c == 'c' || c == 'o' || c == 'n' || c == 't' || c == 'e' || c == '-' || c == 'l'
            || c == 'g' || c == 'h');
    }
    lemma_cut_front(name, ':', value);
    lemma_digits_are_no_space(n, width);
    trimming_takes_white_space(space, decimal_padded(n, width), more_space);
    number_reads_decimal_padded(n, width, usize::MAX as nat);
    assert(announced_length(line) == Some(n));
    assert(rest[0] == line);
    lemma_skipped_lines(before, rest);
    assert(before + seq![line] + after =~= before + rest);
}

proof fn lemma_digits_are_no_space(n: nat, width: nat)
    ensures
        decimal_padded(n, width).len() > 0,
        !is_space(decimal_padded(n, width)[0]),
        !is_space(decimal_padded(n, width).last()),
{
    lemma_decimal_digits(n);
    zeros_stand_before(n, width);
    let s = decimal_padded(n, width);
    let d = decimal(n);
    let k = s.len() - d.len();
    assert(s.last() == s.skip(k)[d.len() - 1]);
    assert(is_digit(d[d.len() - 1]));
    if k == 0 {
        assert(s[0] == s.skip(k)[0]);
        assert(is_digit(d[0]));
    }
}

/// A head without a line named `Content-Length` announces an empty body.
pub proof fn no_announced_length_is_zero(head: Seq<Seq<char>>)
    requires
        forall|i: int| 0 <= i < head.len() ==> says_no_length(#[trigger] head[i]),
    ensures
        body_length(head) == 0,
{
    lemma_skipped_lines(head, seq![]);
    assert(head + seq![] =~= head);
}

/// The lines of a request that posts to the page of a token: the request line,
/// any header lines, the length of the body among them.
pub open spec fn post_lines(
    token: Seq<char>,
    version: Seq<char>,
    before: Seq<Seq<char>>,
    length: Seq<char>,
    after: Seq<Seq<char>>,
) -> Seq<Seq<char>> {
    seq!["POST /captcha/"@ + token + "/ "@ + version] + before + seq![length] + after
}

proof fn lemma_post_line(token: Seq<char>, version: Seq<char>)
    ensures
        asks_for("POST"@, token).is_prefix_of("POST /captcha/"@ + token + "/ "@ + version),
        says_no_length("POST /captcha/"@ + token + "/ "@ + version),
{
    reveal_strlit("POST /captcha/");
    reveal_strlit("/ ");
    reveal_strlit("POST");
    reveal_strlit(" ");
    reveal_strlit("/captcha/");
    reveal_strlit("/");
    reveal_strlit("content-length");
    let line = "POST /captcha/"@ + token + "/ "@ + version;
    let ask = asks_for("POST"@, token);
    assert(ask =~= "POST /captcha/"@ + token + "/ "@);
    assert(ask =~= line.subrange(0, ask.len() as int));
    assert(line[0] == 'P');
    assert forall|k: int|
        0 <= k < line.len() && #[trigger] line[k] == ':' && !line.subrange(0, k).contains(
            ':',
        ) implies !names_length(line.subrange(0, k)) by {
        let part = line.subrange(0, k);
        if names_length(part) {
            assert(part[0] == 'P');
        }
    }
}

/// The code that a person types is received, by the bytes of the request: the
/// request line, any header lines, a `Content-Length` line among them with the
/// length of the form, an empty line and the form. However the network cuts
/// this into pieces, it is read to its end, and answered with the code, but for
/// white space around it.
pub proof fn posted_form_is_received(
    token: Seq<char>,
    image: Seq<u8>,
    code: Seq<char>,
    version: Seq<char>,
    before: Seq<Seq<char>>,
    name: Seq<char>,
    space: Seq<char>,
    width: nat,
    more_space: Seq<char>,
    after: Seq<Seq<char>>,
    chunks: Seq<Seq<u8>>,
)
    requires
        ({
            let form = encode_utf8(encoded_form(seq![("code"@, code)]));
            let length = length_line(name, space, form.len(), width, more_space);
            let lines = post_lines(token, version, before, length, after);
            &&& forall|i: int| 0 <= i < lines.len() ==> is_head_line(#[trigger] lines[i])
            &&& head_bytes(lines).len() <= LIMIT + 1
            &&& head_bytes(lines).len() + form.len() <= usize::MAX
            &&& chunks.flatten() == request_bytes(lines, form)
        }),
        forall|i: int| 0 <= i < before.len() ==> says_no_length(#[trigger] before[i]),
        names_length(name),
        all_space(space),
        all_space(more_space),
        trimmed(code).len() > 0,
        forall|i: int| 0 <= i < chunks.len() ==> 0 < (#[trigger] chunks[i]).len(),
    ensures
        ({
            let form = encode_utf8(encoded_form(seq![("code"@, code)]));
            let length = length_line(name, space, form.len(), width, more_space);
            let request = request_bytes(post_lines(token, version, before, length, after), form);
            &&& read_pieces(seq![], chunks) == (ReadStep::Answer, request)
            &&& head_end(request) matches Some(end) && reply(request, end, token, image) == Some(
                (
                    "<html><body><h2>CAPTCHA received.</h2><p>訂票程式已收到驗證碼，可以關閉此分頁。</p></body></html>"@,
                    Some(trimmed(code)),
                ),
            )
        }),
{
    let form = encode_utf8(encoded_form(seq![("code"@, code)]));
    let length = length_line(name, space, form.len(), width, more_space);
    let lines = post_lines(token, version, before, length, after);
    let request = request_bytes(lines, form);
    let line = "POST /captcha/"@ + token + "/ "@ + version;
    head_is_found(lines, form);
    let end = head_bytes(lines).len();
    let head = lines.push(seq![]);
    lemma_post_line(token, version);
    let first = seq![line] + before;
    assert forall|i: int| 0 <= i < first.len() implies says_no_length(#[trigger] first[i]) by {
        if i > 0 {
            assert(first[i] == before[i - 1]);
        }
    }
    announced_length_is_found(
        first,
        name,
        space,
        form.len(),
        width,
        more_space,
        after.push(seq![]),
    );
    assert(first + seq![length] + after.push(seq![]) =~= head);
    assert(is_whole(request));
    pieces_do_not_matter(request, chunks);
    assert(head[0] == line);
    assert(request.subrange(end as int, request.len() as int) =~= form);
    assert(request_body(request, end) == form);
    posted_code_is_received(request, token, image, code);
}

/// A code is received only from a request that posts to the page of the token,
/// and then it is more than white space and has none around it.
pub proof fn code_comes_from_a_post_alone(
    b: Seq<u8>,
    end: nat,
    token: Seq<char>,
    image: Seq<u8>,
)
    ensures
        reply(b, end, token, image) matches Some((page, Some(code))) ==> {
            &&& ("POST /captcha/"@ + token + "/ "@).is_prefix_of(request_line(
                head_lines(b, end as int),
            ))
            &&& code.len() > 0
            &&& trimmed(code) == code
        },
{
    reveal_strlit("POST /captcha/");
    reveal_strlit("/ ");
    reveal_strlit("POST");
    reveal_strlit(" ");
    reveal_strlit("/captcha/");
    reveal_strlit("/");
    assert(asks_for("POST"@, token) =~= "POST /captcha/"@ + token + "/ "@);
    let body = text_of(request_body(b, end));
    trimming_is_idempotent(field_text(body, "code"@));
}

/// Any other request but one for the root is shown the form: among them those
/// that get the page of the token.
pub proof fn other_requests_are_shown_the_form(
    b: Seq<u8>,
    end: nat,
    token: Seq<char>,
    image: Seq<u8>,
)
    requires
        ({
            let line = request_line(head_lines(b, end as int));
            &&& line != "GET / HTTP/1.1"@
            &&& line != "GET / HTTP/1.0"@
            &&& !("POST /captcha/"@ + token + "/ "@).is_prefix_of(line)
        }),
    ensures
        reply(b, end, token, image) == Some((form_page(token, image), None::<Seq<char>>)),
{
    reveal_strlit("POST /captcha/");
    reveal_strlit("/ ");
    reveal_strlit("POST");
    reveal_strlit(" ");
    reveal_strlit("/captcha/");
    reveal_strlit("/");
    assert(asks_for("POST"@, token) =~= "POST /captcha/"@ + token + "/ "@);
}

/// Every page with the form is made of these parts: the image in Base64 behind
/// the first, the token behind the second.
pub open spec fn frames_form(front: Seq<char>, middle: Seq<char>, end: Seq<char>) -> bool {
    forall|token: Seq<char>, image: Seq<u8>| #[trigger]
        form_page(token, image) == front + base64(image) + middle + token + end
}

/// All pages with the form are one page but for the image, which stands in it
/// in Base64 and in full, and for the token, which stands behind the image.
pub proof fn form_pages_differ_in_image_and_token()
    ensures
        exists|front: Seq<char>, middle: Seq<char>, end: Seq<char>|
            frames_form(front, middle, end),
{
    assert(frames_form(
        "<!doctype html><html><head><meta charset=\"utf-8\"><meta name=\"viewport\" content=\"width=device-width,initial-scale=1\"><title>THSR CAPTCHA</title></head><body style=\"font-family:sans-serif;max-width:520px;margin:40px auto;padding:20px\"><h2>台灣高鐵驗證碼</h2><p>請看圖片輸入驗證碼：</p><img src=\"data:image/jpeg;base64,"@,
        "\" alt=\"CAPTCHA\" style=\"max-width:100%;image-rendering:auto;border:1px solid #ccc\"><form method=\"post\" action=\"/captcha/"@,
        "/\" style=\"margin-top:20px\"><input name=\"code\" autocomplete=\"off\" autofocus style=\"font-size:24px;width:180px\"><button type=\"submit\" style=\"font-size:20px;margin-left:8px\">送出</button></form></body></html>"@,
    ));
}

/// The root says that the server runs, and brings no code.
pub proof fn root_says_that_the_server_runs(
    b: Seq<u8>,
    end: nat,
    token: Seq<char>,
    image: Seq<u8>,
)
    requires
        ({
            let line = request_line(head_lines(b, end as int));
            line == "GET / HTTP/1.1"@ || line == "GET / HTTP/1.0"@
        }),
    ensures
        reply(b, end, token, image) == Some(
            (
                "<html><body><h3>THSR Auto Booking is running.</h3></body></html>"@,
                None::<Seq<char>>,
            ),
        ),
{
}

/// Whatever is posted to the page of the token: a code that is more than white
/// space is received, and otherwise the form is shown again.
pub proof fn blank_code_is_asked_for_again(
    b: Seq<u8>,
    token: Seq<char>,
    image: Seq<u8>,
    code: Seq<char>,
)
    requires
        head_end(b) is Some,
        ("POST /captcha/"@ + token + "/ "@).is_prefix_of(
            request_line(head_lines(b, head_end(b).unwrap() as int)),
        ),
        request_body(b, head_end(b).unwrap()) == encode_utf8(encoded_form(seq![("code"@, code)])),
        all_space(code),
    ensures
        reply(b, head_end(b).unwrap(), token, image) == Some(
            (form_page(token, image), None::<Seq<char>>),
        ),
{
    let form = encoded_form(seq![("code"@, code)]);
    encode_utf8_valid_utf8(form);
    encode_utf8_decode_utf8(form);
    reveal_strlit("code");
    assert(plain("code"@)) by {
        assert(is_ascii_chars("code"@));
        assert forall|i: int| 0 <= i < "code"@.len() implies plain_byte(
            #[trigger] "code"@[i] as u8,
        ) by {
            assert("code"@[i] == 'c' || "code"@[i] == 'o' || "code"@[i] == 'd' || "code"@[i]
                == 'e');
        }
    }
    field_of_encoded_form(seq![("code"@, code)], "code"@);
    raw_field_of_encoded_pair("code"@, code);
    decoding_undoes_encoding(code);
    assert(looked_up(seq![("code"@, code)], "code"@) == code);
    trimming_takes_white_space(code, seq![], seq![]);
    assert(code + seq![] + seq![] =~= code);
    reveal_strlit("POST /captcha/");
    reveal_strlit("GET / HTTP/1.1");
    reveal_strlit("GET / HTTP/1.0");
    let line = request_line(head_lines(b, head_end(b).unwrap() as int));
    let ask = "POST /captcha/"@ + token + "/ "@;
    assert(ask[0] == 'P');
    assert(line.subrange(0, ask.len() as int)[0] == ask[0]);
    reveal_strlit("/ ");
    reveal_strlit("POST");
    reveal_strlit(" ");
    reveal_strlit("/captcha/");
    reveal_strlit("/");
    assert(asks_for("POST"@, token) =~= ask);
}

/// No empty line stands anywhere in the bytes.
pub open spec fn has_no_empty_line(b: Seq<u8>) -> bool {
    forall|i: int|
        0 <= i && i + 4 <= b.len() ==> !(#[trigger] b[i] == 13 && b[i + 1] == 10 && b[i + 2] == 13
            && b[i + 3] == 10)
}

/// While no empty line has come, more is read up to 65536 bytes; beyond them,
/// and where the other side closes, the connection is left.
pub proof fn heads_are_read_up_to_a_limit(buffer: Seq<u8>, chunk: Seq<u8>)
    requires
        has_no_empty_line(buffer + chunk),
    ensures
        read_step(buffer, chunk) == (if chunk.len() == 0 || (buffer + chunk).len() > 65536 {
            ReadStep::Leave
        } else {
            ReadStep::More
        }),
{
    let b = buffer + chunk;
    assert forall|j: int| 0 <= j implies !#[trigger] empty_line_at(b, j) by {
        if empty_line_at(b, j) {
            assert(b[j] == 13);
        }
    }
    lemma_no_head_end_from(b, 0);
    assert forall|j: int| 0 <= j implies !#[trigger] empty_line_at(buffer, j) by {
        if empty_line_at(buffer, j) {
            assert(b[j] == buffer[j] && b[j + 1] == buffer[j + 1] && b[j + 2] == buffer[j + 2]
                && b[j + 3] == buffer[j + 3]);
            assert(empty_line_at(b, j));
        }
    }
    lemma_no_head_end_from(buffer, 0);
}

/// Once the head is there, the request is answered as soon as the body that it
/// announces has come or the other side closes, and more is read before.
pub proof fn bodies_are_read_to_their_end(
    lines: Seq<Seq<char>>,
    so_far: Seq<u8>,
    chunk: Seq<u8>,
)
    requires
        lines.len() > 0,
        forall|i: int| 0 <= i < lines.len() ==> is_head_line(#[trigger] lines[i]),
        head_bytes(lines).len() + body_length(lines.push(seq![])) <= usize::MAX - 65536,
        so_far.len() + chunk.len() <= body_length(lines.push(seq![])) + 65536,
    ensures
        read_step(request_bytes(lines, so_far), chunk) == (if chunk.len() == 0 || so_far.len()
            + chunk.len() >= body_length(lines.push(seq![])) {
            ReadStep::Answer
        } else {
            ReadStep::More
        }),
{
    head_is_found(lines, so_far);
}

spec fn answer_lines(status: Seq<char>, content_type: Seq<char>, length: nat) -> Seq<Seq<char>> {
    seq![
        "HTTP/1.1 "@ + status,
        "Content-Type: "@ + content_type,
        "Content-Length: "@ + decimal(length),
        "Cache-Control: no-store"@,
        "Connection: close"@,
    ]
}

proof fn lemma_first_letter(line: Seq<char>, c: char)
    requires
        line.len() > 0,
        line[0] == c,
        c != ':',
        c != 'c',
        c != 'C',
    ensures
        says_no_length(line),
{
    reveal_strlit("content-length");
    assert forall|k: int|
        0 <= k < line.len() && #[trigger] line[k] == ':' && !line.subrange(0, k).contains(
            ':',
        ) implies !names_length(line.subrange(0, k)) by {
        let part = line.subrange(0, k);
        if names_length(part) {
            assert(part[0] == c);
        }
    }
}

proof fn lemma_type_line(content_type: Seq<char>)
    ensures
        says_no_length("Content-Type: "@ + content_type),
{
    reveal_strlit("content-length");
    reveal_strlit("Content-Type: ");
    let line = "Content-Type: "@ + content_type;
    assert(line[12] == ':');
    assert forall|k: int|
        0 <= k < line.len() && #[trigger] line[k] == ':' && !line.subrange(0, k).contains(
            ':',
        ) implies !names_length(line.subrange(0, k)) by {
        if k > 12 {
            assert(line.subrange(0, k)[12] == ':');
        }
    }
}

proof fn lemma_answer_lines(status: Seq<char>, content_type: Seq<char>, length: nat)
    requires
        !status.contains('\r'),
        !status.contains('\n'),
        !content_type.contains('\r'),
        !content_type.contains('\n'),
    ensures
        forall|i: int|
            0 <= i < 5 ==> is_head_line(
                #[trigger] answer_lines(status, content_type, length)[i],
            ),
{
    reveal_strlit("HTTP/1.1 ");
    reveal_strlit("Content-Type: ");
    reveal_strlit("Content-Length: ");
    reveal_strlit("Cache-Control: no-store");
    reveal_strlit("Connection: close");
    lemma_decimal_digits(length);
    let d = decimal(length);
    assert(!d.contains('\r') && !d.contains('\n')) by {
        assert forall|i: int| 0 <= i < d.len() implies #[trigger] d[i] != '\r' && d[i] != '\n' by {
            assert(is_digit(d[i]));
        }
    }
    lemma_no_break("HTTP/1.1 "@, status);
    lemma_no_break("Content-Type: "@, content_type);
    lemma_no_break("Content-Length: "@, d);
}

proof fn lemma_no_break(a: Seq<char>, b: Seq<char>)
    requires
        !a.contains('\r'),
        !a.contains('\n'),
        !b.contains('\r'),
        !b.contains('\n'),
    ensures
        !(a + b).contains('\r'),
        !(a + b).contains('\n'),
{
    let s = a + b;
    assert forall|i: int| 0 <= i < s.len() implies #[trigger] s[i] != '\r' && s[i] != '\n' by {
        if i < a.len() {
            assert(a.contains(a[i]));
        } else {
            assert(b.contains(b[i - a.len()]));
        }
    }
}

/// An answer is a message in itself: read by its bytes it has the status in its
/// first line, announces the length of its body, and has the body behind its
/// head, no more and no less.
pub proof fn answers_are_whole(status: Seq<char>, content_type: Seq<char>, body: Seq<u8>)
    requires
        !status.contains('\r'),
        !status.contains('\n'),
        !content_type.contains('\r'),
        !content_type.contains('\n'),
        body.len() <= usize::MAX,
    ensures
        ({
            let answer = http_answer(status, content_type, body);
            &&& head_end(answer) matches Some(end) && {
                &&& answer.skip(end as int) == body
                &&& body_length(head_lines(answer, end as int)) == body.len()
                &&& request_line(head_lines(answer, end as int)) == "HTTP/1.1 "@ + status
                &&& head_lines(answer, end as int).contains("Content-Type: "@ + content_type)
                &&& head_lines(answer, end as int).contains("Cache-Control: no-store"@)
                &&& head_lines(answer, end as int).contains("Connection: close"@)
            }
        }),
{
    let crlf = seq!['\r', '\n'];
    let lines = answer_lines(status, content_type, body.len());
    let answer = http_answer(status, content_type, body);
    reveal_strlit("HTTP/1.1 ");
    reveal_strlit("\r\nContent-Type: ");
    reveal_strlit("\r\nContent-Length: ");
    reveal_strlit("\r\nCache-Control: no-store\r\nConnection: close\r\n\r\n");
    reveal_strlit("Content-Type: ");
    reveal_strlit("Content-Length: ");
    reveal_strlit("Cache-Control: no-store");
    reveal_strlit("Connection: close");
    let l1 = lines.drop_first();
    let l2 = l1.drop_first();
    let l3 = l2.drop_first();
    let l4 = l3.drop_first();
    assert(l4.drop_first() =~= seq![]);
    assert(with_endings(l4.drop_first(), crlf) =~= seq![]);
    assert(with_endings(l4, crlf) =~= "Connection: close"@ + crlf);
    assert(with_endings(l3, crlf) =~= "Cache-Control: no-store"@ + crlf + with_endings(l4, crlf));
    assert(with_endings(l3, crlf) + crlf =~= ("\r\nCache-Control: no-store\r\nConnection: close\r\n\r\n"@).skip(2));
    let length = decimal(body.len());
    assert(with_endings(l2, crlf) == "Content-Length: "@ + length + crlf + with_endings(l3, crlf));
    assert(with_endings(l1, crlf) == "Content-Type: "@ + content_type + crlf + with_endings(
        l2,
        crlf,
    ));
    let text = "HTTP/1.1 "@ + status + "\r\nContent-Type: "@ + content_type
        + "\r\nContent-Length: "@ + length
        + "\r\nCache-Control: no-store\r\nConnection: close\r\n\r\n"@;
    assert("\r\nContent-Type: "@ =~= crlf + "Content-Type: "@);
    assert("\r\nContent-Length: "@ =~= crlf + "Content-Length: "@);
    let tail = with_endings(l3, crlf) + crlf;
    assert("\r\nCache-Control: no-store\r\nConnection: close\r\n\r\n"@ =~= crlf + tail);
    assert(with_endings(lines, crlf) + crlf =~= text);
    assert(answer == request_bytes(lines, body));
    lemma_answer_lines(status, content_type, body.len());
    head_is_found(lines, body);
    let end = head_bytes(lines).len();
    assert(answer.skip(end as int) =~= body);
    let head = lines.push(seq![]);
    let before = seq![lines[0], lines[1]];
    lemma_first_letter(lines[0], 'H');
    lemma_type_line(content_type);
    assert forall|i: int| 0 <= i < before.len() implies says_no_length(#[trigger] before[i]) by {
        if i == 1 {
            assert(before[1] == "Content-Type: "@ + content_type);
        }
    }
    reveal_strlit("content-length");
    let name = "Content-Length: "@.subrange(0, 14);
    assert(names_length(name));
    let after = seq![lines[3], lines[4], seq![]];
    announced_length_is_found(before, name, seq![' '], body.len(), 0, seq![], after);
    lemma_decimal_digits(body.len());
    assert(length_line(name, seq![' '], body.len(), 0, seq![]) =~= lines[2]);
    assert(before + seq![lines[2]] + after =~= head);
    assert(head[1] == "Content-Type: "@ + content_type);
    assert(head[3] == "Cache-Control: no-store"@);
    assert(head[4] == "Connection: close"@);
}

/// What counts as the body of a request is what has come of it, up to the
/// length that its head announces: not what comes behind it, and less only
/// where less has come.
pub proof fn body_is_what_is_announced(lines: Seq<Seq<char>>, come: Seq<u8>)
    requires
        lines.len() > 0,
        forall|i: int| 0 <= i < lines.len() ==> is_head_line(#[trigger] lines[i]),
        head_bytes(lines).len() + come.len() <= usize::MAX,
    ensures
        ({
            let announced = body_length(lines.push(seq![]));
            request_body(request_bytes(lines, come), head_bytes(lines).len()) == come.take(
                if announced <= come.len() {
                    announced as int
                } else {
                    come.len() as int
                },
            )
        }),
{
    head_is_found(lines, come);
    let b = request_bytes(lines, come);
    let end = head_bytes(lines).len();
    let announced = body_length(lines.push(seq![]));
    let n = if announced <= come.len() {
        announced as int
    } else {
        come.len() as int
    };
    assert(request_body(b, end) =~= come.take(n));
}

/// The code is found among any other fields of the form that is posted: the
/// first field of that name is received.
pub proof fn code_is_found_among_other_fields(
    b: Seq<u8>,
    token: Seq<char>,
    image: Seq<u8>,
    fields: Seq<(Seq<char>, Seq<char>)>,
)
    requires
        head_end(b) is Some,
        ("POST /captcha/"@ + token + "/ "@).is_prefix_of(
            request_line(head_lines(b, head_end(b).unwrap() as int)),
        ),
        request_body(b, head_end(b).unwrap()) == encode_utf8(encoded_form(fields)),
        !all_space(looked_up(fields, "code"@)),
    ensures
        reply(b, head_end(b).unwrap(), token, image) matches Some((_, code)) && code == Some(
            trimmed(looked_up(fields, "code"@)),
        ),
{
    let form = encoded_form(fields);
    encode_utf8_valid_utf8(form);
    encode_utf8_decode_utf8(form);
    reveal_strlit("code");
    assert(plain("code"@)) by {
        assert(is_ascii_chars("code"@));
        assert forall|i: int| 0 <= i < "code"@.len() implies plain_byte(
            #[trigger] "code"@[i] as u8,
        ) by {
            assert("code"@[i] == 'c' || "code"@[i] == 'o' || "code"@[i] == 'd' || "code"@[i]
                == 'e');
        }
    }
    field_of_encoded_form(fields, "code"@);
    only_white_space_trims_to_nothing(looked_up(fields, "code"@));
    reveal_strlit("POST /captcha/");
    reveal_strlit("GET / HTTP/1.1");
    reveal_strlit("GET / HTTP/1.0");
    let line = request_line(head_lines(b, head_end(b).unwrap() as int));
    let ask = "POST /captcha/"@ + token + "/ "@;
    assert(ask[0] == 'P');
    assert(line.subrange(0, ask.len() as int)[0] == ask[0]);
    reveal_strlit("/ ");
    reveal_strlit("POST");
    reveal_strlit(" ");
    reveal_strlit("/captcha/");
    reveal_strlit("/");
    assert(asks_for("POST"@, token) =~= ask);
}

} // verus!
