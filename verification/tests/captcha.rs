use thsr_booking::base64::base64_encode;
use thsr_booking::captcha::{
    answer_page, answer_post, captcha_html, write_http, write_page_path, ReadStep, Reply,
    RequestReader, LIMIT, RECEIVED_PAGE, RUNNING_PAGE,
};
use thsr_booking::captcha_wait::{
    captcha_token, listen_address, required_message, required_notice, unavailable_notice, Asking,
    Surroundings,
};
use thsr_booking::form::{form_field, form_value, is_decodable, read_text, url_decode};

fn nowhere() -> Surroundings {
    Surroundings {
        public_url: None,
        public_domain: None,
        static_url: None,
        environment_named: false,
        project_known: false,
    }
}

fn request(text: &str) -> Option<Reply> {
    let mut reader = RequestReader::new();
    assert_eq!(reader.read(text.as_bytes()), ReadStep::Answer);
    reader.respond("T", b"img")
}

#[test]
fn base64_of_all_lengths() {
    assert_eq!(base64_encode(b""), "");
    assert_eq!(base64_encode(b"f"), "Zg==");
    assert_eq!(base64_encode(b"fo"), "Zm8=");
    assert_eq!(base64_encode(b"foo"), "Zm9v");
    assert_eq!(base64_encode(b"foobar"), "Zm9vYmFy");
    assert_eq!(base64_encode(&[0xFB, 0xFF, 0xFE]), "+//+");
    assert_eq!(base64_encode(&[255, 216, 255, 224]), "/9j/4A==");
}

#[test]
fn values_are_decoded() {
    assert_eq!(url_decode("a+b%20c"), "a b c");
    assert_eq!(url_decode("%E9%AB%98"), "高");
    assert_eq!(url_decode("%e9%ab%98"), "高");
    assert_eq!(url_decode("%4"), "%4");
    assert_eq!(url_decode("100%"), "100%");
    assert_eq!(url_decode("%zz"), "%zz");
    assert_eq!(url_decode("%+5"), "\u{5}");
    assert_eq!(url_decode("%41"), "A");
    assert_eq!(url_decode(""), "");
    assert_eq!(url_decode("%FF"), "\u{FFFD}");
}

#[test]
fn escapes_that_cut_a_character() {
    assert!(is_decodable("%41"));
    assert!(is_decodable("高%41"));
    assert!(!is_decodable("%高"));
    assert!(!is_decodable("%a高"));
    assert!(is_decodable("%ab高"));
    assert!(is_decodable("%é"));
    assert!(!is_decodable("%aé"));
}

#[test]
fn fields_are_found() {
    assert_eq!(form_value("a=1&code=x+y&code=z", "code"), "x y");
    assert_eq!(form_value("code", "code"), "");
    assert_eq!(form_value("xcode=1", "code"), "");
    assert_eq!(form_value("code=a=b", "code"), "a=b");
    assert_eq!(form_field("a=1", "b"), None);
    assert_eq!(form_field("a=%41", "a"), Some("%41".to_string()));
}

#[test]
fn bytes_that_are_not_text() {
    assert_eq!(read_text(b"abc"), "abc");
    assert_eq!(read_text(&[0x61, 0xFF, 0x62]), "a\u{FFFD}b");
    for bytes in [vec![0xC0, 0x80], vec![0xED, 0xA0, 0x80], vec![0xF4, 0x90, 0x80, 0x80], vec![0xE9, 0xAB]] {
        assert!(read_text(&bytes).contains('\u{FFFD}'));
    }
    assert!(form_value("code=%E9%AB", "code").contains('\u{FFFD}'));
}

#[test]
fn root_says_that_the_server_runs() {
    for version in ["1.0", "1.1"] {
        let reply = request(&format!("GET / HTTP/{version}\r\n\r\n")).unwrap();
        assert_eq!(reply.html, RUNNING_PAGE);
        assert_eq!(reply.code, None);
    }
}

#[test]
fn page_of_the_token() {
    let reply = request("GET /captcha/T/ HTTP/1.1\r\nHost: x\r\n\r\n").unwrap();
    assert_eq!(reply.html, captcha_html("T", b"img"));
    assert!(reply.html.contains("<img src=\"data:image/jpeg;base64,aW1n\" alt=\"CAPTCHA\""));
    assert!(reply.html.contains("<form method=\"post\" action=\"/captcha/T/\""));
    assert_eq!(write_page_path("T"), "/captcha/T/");
    assert_eq!(reply.code, None);
}

#[test]
fn page_in_full() {
    assert_eq!(
        captcha_html("T", b"img"),
        "<!doctype html><html><head><meta charset=\"utf-8\"><meta name=\"viewport\" content=\"width=device-width,initial-scale=1\"><title>THSR CAPTCHA</title></head><body style=\"font-family:sans-serif;max-width:520px;margin:40px auto;padding:20px\"><h2>台灣高鐵驗證碼</h2><p>請看圖片輸入驗證碼：</p><img src=\"data:image/jpeg;base64,aW1n\" alt=\"CAPTCHA\" style=\"max-width:100%;image-rendering:auto;border:1px solid #ccc\"><form method=\"post\" action=\"/captcha/T/\" style=\"margin-top:20px\"><input name=\"code\" autocomplete=\"off\" autofocus style=\"font-size:24px;width:180px\"><button type=\"submit\" style=\"font-size:20px;margin-left:8px\">送出</button></form></body></html>"
    );
}

#[test]
fn posted_code_is_received() {
    let reply = request("POST /captcha/T/ HTTP/1.1\r\nContent-Length: 12\r\n\r\ncode=+ab12++").unwrap();
    assert_eq!(reply.code, Some("ab12".to_string()));
    assert_eq!(reply.html, RECEIVED_PAGE);
}

#[test]
fn length_is_announced_in_any_case() {
    let reply =
        request("POST /captcha/T/ HTTP/1.1\r\ncontent-LENGTH: x\r\nCONTENT-length:  6 \r\n\r\ncode=7").unwrap();
    assert_eq!(reply.code, Some("7".to_string()));
}

#[test]
fn post_without_a_code_shows_the_form() {
    for text in [
        "POST /captcha/T/ HTTP/1.1\r\nContent-Length: 7\r\n\r\ncode=++",
        "POST /captcha/T/ HTTP/1.1\r\n\r\ncode=ab",
        "POST /captcha/U/ HTTP/1.1\r\nContent-Length: 7\r\n\r\ncode=ab",
        "PUT /captcha/T/ HTTP/1.1\r\nContent-Length: 7\r\n\r\ncode=ab",
        "GET /nowhere HTTP/1.1\r\n\r\n",
    ] {
        let reply = request(text).unwrap();
        assert_eq!(reply.code, None);
        assert_eq!(reply.html, captcha_html("T", b"img"));
    }
}

#[test]
fn code_that_cannot_be_decoded() {
    assert!(answer_post("code=%高", "T", b"").is_none());
    assert!(answer_post("x=%高&code=1", "T", b"").unwrap().code == Some("1".to_string()));
    assert!(request("POST /captcha/T/ HTTP/1.1\r\nContent-Length: 9\r\n\r\ncode=%高").is_none());
}

#[test]
fn request_in_pieces() {
    let text = b"POST /captcha/T/ HTTP/1.1\r\nContent-Length: 9\r\n\r\ncode=ab12";
    for size in 1..text.len() {
        let mut reader = RequestReader::new();
        let mut last = ReadStep::More;
        for chunk in text.chunks(size) {
            assert_eq!(last, ReadStep::More);
            last = reader.read(chunk);
        }
        assert_eq!(last, ReadStep::Answer);
        assert_eq!(reader.respond("T", b"").unwrap().code, Some("ab12".to_string()));
    }
}

#[test]
fn bytes_behind_the_request() {
    let mut reader = RequestReader::new();
    let text = b"POST /captcha/T/ HTTP/1.1\r\nContent-Length: 9\r\n\r\ncode=ab12&code=zz";
    assert_eq!(reader.read(text), ReadStep::Answer);
    assert_eq!(reader.respond("T", b"").unwrap().code, Some("ab12".to_string()));
}

#[test]
fn closed_connections() {
    let mut reader = RequestReader::new();
    assert_eq!(reader.read(b"GET / HT"), ReadStep::More);
    assert_eq!(reader.read(b""), ReadStep::Leave);
    assert!(reader.respond("T", b"").is_none());
    let mut reader = RequestReader::new();
    assert_eq!(reader.read(b"POST /captcha/T/ HTTP/1.1\r\nContent-Length: 99\r\n\r\ncode=a"), ReadStep::More);
    assert_eq!(reader.read(b""), ReadStep::Answer);
    assert_eq!(reader.respond("T", b"").unwrap().code, Some("a".to_string()));
}

#[test]
fn heads_and_bodies_have_a_limit() {
    let mut reader = RequestReader::new();
    assert_eq!(reader.read(&vec![b'x'; LIMIT]), ReadStep::More);
    assert_eq!(reader.read(b"x"), ReadStep::Leave);
    let mut reader = RequestReader::new();
    assert_eq!(reader.read(b"POST / HTTP/1.1\r\nContent-Length: 5\r\n\r\nabc"), ReadStep::More);
    assert_eq!(reader.read(&vec![b'x'; LIMIT + 3]), ReadStep::Leave);
    let mut reader = RequestReader::new();
    assert_eq!(
        reader.read(b"POST / HTTP/1.1\r\nContent-Length: 18446744073709551615\r\n\r\nabc"),
        ReadStep::More
    );
}

#[test]
fn answers_on_the_wire() {
    assert_eq!(
        write_http("200 OK", "text/plain", "高".as_bytes()),
        "HTTP/1.1 200 OK\r\nContent-Type: text/plain\r\nContent-Length: 3\r\nCache-Control: no-store\r\nConnection: close\r\n\r\n高"
            .as_bytes()
            .to_vec()
    );
    let reply = Reply { html: "<p>".to_string(), code: None };
    assert_eq!(
        answer_page(&reply),
        b"HTTP/1.1 200 OK\r\nContent-Type: text/html; charset=utf-8\r\nContent-Length: 3\r\nCache-Control: no-store\r\nConnection: close\r\n\r\n<p>"
            .to_vec()
    );
}

#[test]
fn page_on_this_machine() {
    let s = nowhere();
    assert_eq!(s.captcha_url(8080, "T"), Some("http://127.0.0.1:8080/captcha/T/".to_string()));
    assert!(s.opens_browser());
    assert!(!s.is_railway());
}

#[test]
fn page_under_a_public_address() {
    let mut s = nowhere();
    s.static_url = Some("static.example".to_string());
    s.environment_named = true;
    assert_eq!(s.captcha_url(1, "T"), Some("https://static.example/captcha/T/".to_string()));
    s.public_domain = Some("domain.example".to_string());
    assert_eq!(s.captcha_url(1, "T"), Some("https://domain.example/captcha/T/".to_string()));
    s.public_url = Some(" https://your-service.up.railway.app// ".to_string());
    assert_eq!(
        s.captcha_url(1, "T"),
        Some("https://your-service.up.railway.app/captcha/T/".to_string())
    );
    s.public_url = Some("http://plain.example".to_string());
    assert_eq!(s.public_base(), Some("http://plain.example".to_string()));
    assert!(!s.opens_browser());
}

#[test]
fn slash_behind_the_address() {
    let mut s = nowhere();
    s.public_url = Some("host".to_string());
    let without = s.captcha_url(1, "T");
    s.public_url = Some("host/".to_string());
    assert_eq!(s.captcha_url(1, "T"), without);
}

#[test]
fn railway_without_an_address() {
    for (named, known) in [(true, false), (false, true)] {
        let mut s = nowhere();
        s.environment_named = named;
        s.project_known = known;
        assert_eq!(s.captcha_url(8080, "T"), None);
        assert!(!s.opens_browser());
        match s.ask(8080, "T") {
            Asking::GiveUp { notice } => assert_eq!(notice, unavailable_notice()),
            Asking::Wait { .. } => panic!("nobody could reach the page"),
        }
    }
    assert_eq!(unavailable_notice()[2], "CAPTCHA URL NOT AVAILABLE");
}

#[test]
fn asking_for_a_code() {
    match nowhere().ask(80, "T") {
        Asking::Wait { url, notice, message, open_browser } => {
            assert_eq!(url, "http://127.0.0.1:80/captcha/T/");
            assert_eq!(notice, required_notice(&url));
            assert_eq!(notice[5], url);
            assert_eq!(message, required_message(&url));
            assert!(open_browser);
        }
        Asking::GiveUp { .. } => panic!("the page can be reached"),
    }
    assert_eq!(
        required_message("U"),
        "🔐 THSR CAPTCHA required\n\n板橋 → 台中\n日期：2026/09/25\n發車條件：07:30～12:00\n\n請開啟驗證碼網址：\nU\n\n輸入 CAPTCHA 後按送出，程式會自動繼續。"
    );
}

#[test]
fn tokens_and_addresses() {
    assert_eq!(captcha_token(12, 345), "12-345");
    assert_ne!(captcha_token(1, 23), captcha_token(12, 3));
    assert_eq!(listen_address(&None), "0.0.0.0:0");
    assert_eq!(listen_address(&Some("8080".to_string())), "0.0.0.0:8080");
}
