use thsr_booking::attempt::{
    after_attempt, attempt_banner, input_or_default, next_step, settings_line, NextStep, Progress,
};
use thsr_booking::booking_result::{read_result, BookingResult};
use thsr_booking::form::form_value;
use thsr_booking::header::get_header;
use thsr_booking::number::{read_number, write_decimal, write_decimal_padded};
use thsr_booking::page::{
    errors_in, find, find_below, has_booking_result, page_or_error, page_unless, parse_error,
    read_text_at, Element,
};
use thsr_booking::telegram::{delivery_notice, telegram_message, Delivery, Notification};
use thsr_booking::text::{
    is_at_most, join, lines, pad_left, same_but_for_case, split, split_once, starts_with, trim,
    trim_end_char,
};

const RESULT: &str = "<html><body><p class=\"pnr-code\"><span> 01234567 </span></p>\
    <span id=\"setTrainTotalPriceValue\">TWD 1,200</span>\
    <span class=\"status-unpaid\"><span>a</span><span>b</span><span>08/30</span></span>\
    <span class=\"date\"><span>2026/09/25</span></span>\
    <span id=\"setTrainDeparture0\">08:00</span><span id=\"setTrainArrival0\">08:50</span>\
    <p class=\"departure-stn\"><span>Banqiao</span></p><p class=\"arrival-stn\"><span>Taichung</span></p>\
    <div class=\"seat-label\"><span>5A</span></div><div class=\"seat-label\"><span>5B</span></div>\
    <div class=\"uk-accordion-content\"><span> x2</span></div><p class=\"info-data\"><span>Standard</span></p></body></html>";

fn error(texts: Vec<&str>) -> Element {
    Element { attrs: vec![], texts: texts.into_iter().map(str::to_string).collect() }
}

#[test]
fn headers_of_every_request() {
    let headers = get_header();
    assert_eq!(headers.len(), 10);
    for (name, value) in [
        ("Host", "irs.thsrc.com.tw"),
        ("User-Agent", "Mozilla/5.0 (Windows NT 10.0; Win64; x64; rv:137.0) Gecko/20100101 Firefox/137.0"),
        ("Accept", "text/html,application/xhtml+xml,application/xml;q=0.9,image/webp,*/*;q=0.8"),
        ("Accept-Language", "zh-TW,zh;q=0.8,en-US;q=0.5,en;q=0.3"),
        ("Accept-Encoding", "deflate, br"),
        ("Connection", "keep-alive"),
        ("Upgrade-Insecure-Requests", "1"),
        ("Referer", "https://irs.thsrc.com.tw/IMINT/"),
        ("Sec-Fetch-Site", "same-origin"),
        ("Sec-Fetch-Mode", "no-cors"),
    ] {
        assert_eq!(headers.get(name).unwrap().as_bytes(), value.as_bytes());
        assert_eq!(headers.get_all(name).iter().count(), 1);
    }
}

#[test]
fn errors_of_a_page() {
    let page = "<span class=\"feedbackPanelERROR\"> wrong code\n</span><span class=\"feedbackPanelERROR\"></span>\
                <span class=\"feedbackPanelERROR\">sold out</span>";
    assert_eq!(parse_error(page), Some("wrong code\nsold out".to_string()));
    assert_eq!(parse_error("<p>fine</p>"), None);
    assert_eq!(errors_in(&vec![error(vec![" a ", "b"]), error(vec![])]), Some("a".to_string()));
    assert_eq!(errors_in(&vec![error(vec![])]), None);
    assert_eq!(page_or_error(page.to_string()), Err("wrong code\nsold out".to_string()));
    assert_eq!(page_or_error("<p>fine</p>".to_string()), Ok("<p>fine</p>".to_string()));
    assert_eq!(page_unless("p".to_string(), None), Ok("p".to_string()));
    assert_eq!(page_unless("p".to_string(), Some("e".to_string())), Err("e".to_string()));
}

#[test]
fn elements_of_a_page() {
    let html = "<div a=\"1\"><p b=\"2\">x<i>y</i></p></div><div><p>z</p></div>";
    let divs = find(html, "div", &["a", "b"]);
    assert_eq!(divs.len(), 2);
    assert_eq!(divs[0].attr(0), Some("1".to_string()));
    assert_eq!(divs[0].attr(1), None);
    assert_eq!(divs[0].attr(2), None);
    assert_eq!(divs[0].texts, vec!["x", "y"]);
    assert_eq!(divs[1].text(), Some("z".to_string()));
    let below = find_below(html, "div", &["p", "i"], &["b"]);
    assert_eq!(below.len(), 2);
    assert_eq!(below[0].len(), 2);
    assert_eq!(below[0][0][0].attr(0), Some("2".to_string()));
    assert_eq!(below[0][1][0].text(), Some("y".to_string()));
    assert!(below[1][1].is_empty());
    assert_eq!(read_text_at(html, "p"), Some("x".to_string()));
    assert_eq!(read_text_at(html, "b"), None);
    assert!(find(html, "<<", &[]).is_empty());
    assert!(find_below(html, "div", &["<<"], &[]).is_empty());
}

#[test]
fn result_page_is_told() {
    assert!(has_booking_result(RESULT));
    let result = read_result(RESULT);
    assert_eq!(
        result.lines(),
        vec![
            "\nPlease use the following PNR code for payment and picking up the ticket:",
            "PNR Code:  01234567 ",
            "Price: TWD 1,200. Please pay before 08/30",
            "-------(Ticket Information)-------",
            " Date: 2026/09/25",
            " Time: 08:00~08:50",
            " From: Banqiao",
            "   To: Taichung",
            "Class: Standard x2",
            "Seats: 5A, 5B",
        ]
    );
    assert_eq!(result.code(), Some("01234567".to_string()));
    assert_eq!(
        result.message().unwrap(),
        "🎉 THSR 訂票成功！\n\nPNR Code：01234567\n日期：2026/09/25\n時間：08:00~08:50\n路線：Banqiao → Taichung\n車廂：Standardx2\n座位：5A, 5B\n票價：TWD 1,200\n付款期限：08/30"
    );
}

#[test]
fn result_page_that_says_too_little() {
    let result = read_result("<p class=\"pnr-code\"><span>01</span></p><span class=\"date\"><span>d</span></span>");
    assert_eq!(result.lines().len(), 2);
    assert_eq!(result.message(), None);
    assert_eq!(result.code(), Some("01".to_string()));
    let nothing: BookingResult = read_result("");
    assert!(nothing.lines().is_empty());
    assert_eq!(nothing.code(), None);
}

#[test]
fn attempts_end_with_a_code() {
    match after_attempt(Ok(RESULT.to_string())) {
        NextStep::Finish { notice, page } => {
            assert_eq!(notice[1], "BOOKING SUCCESS!");
            assert_eq!(page, RESULT);
        }
        NextStep::Retry { .. } => panic!("the page has a code"),
    }
}

#[test]
fn attempts_go_on_without_a_code() {
    match after_attempt(Ok("<p></p>".to_string())) {
        NextStep::Retry { notice, seconds } => {
            assert_eq!(seconds, 3);
            assert_eq!(
                notice,
                vec![
                    "Booking flow finished without a PNR. The site may have rejected the request.",
                    "Retrying in 3 seconds...",
                ]
            );
        }
        NextStep::Finish { .. } => panic!("the page has no code"),
    }
    match next_step(Err("sold out".to_string()), true) {
        NextStep::Retry { notice, seconds } => {
            assert_eq!(seconds, 3);
            assert_eq!(notice, vec!["Booking attempt failed: sold out", "Retrying in 3 seconds..."]);
        }
        NextStep::Finish { .. } => panic!("there is no page"),
    }
}

#[test]
fn stages_of_an_attempt() {
    let page = |s: &str| Ok(s.to_string());
    let first = Progress::Book.advance(page("trains"));
    assert!(matches!(&first, Progress::TakeTrain { page } if page == "trains"));
    let second = first.advance(page("ticket"));
    assert!(matches!(&second, Progress::Close { page } if page == "ticket"));
    let third = second.advance(page("result"));
    assert!(matches!(&third, Progress::Ended { result: Ok(page) } if page == "result"));
    let fourth = third.advance(page("other"));
    assert!(matches!(&fourth, Progress::Ended { result: Ok(page) } if page == "result"));
}

#[test]
fn error_ends_an_attempt() {
    let error = || Err("sold out".to_string());
    let ended = |p: Progress| matches!(p, Progress::Ended { result: Err(e) } if e == "sold out");
    assert!(ended(Progress::Book.advance(error())));
    assert!(ended(Progress::TakeTrain { page: String::new() }.advance(error())));
    assert!(ended(Progress::Close { page: String::new() }.advance(error())));
    assert!(ended(Progress::Book.advance(error()).advance(Ok("page".to_string()))));
}

#[test]
fn settings_and_banner() {
    assert_eq!(
        settings_line(),
        "FIXED SETTINGS: Banqiao -> Taichung | date 2026/09/25 | from 07:30 (TIME_TABLE ID 6) | adults 2 | students 0 | seat any | class standard | membership off | retry 3s"
    );
    assert_eq!(attempt_banner(17)[2], "THSR AUTO BOOKING - ATTEMPT 17");
    assert_eq!(attempt_banner(17).len(), 4);
}

#[test]
fn typed_lines() {
    assert_eq!(input_or_default(" \n", Some(5), 7), 7);
    assert_eq!(input_or_default("5\n", Some(5), 7), 5);
    assert_eq!(input_or_default("x", None, 7), 7);
}

#[test]
fn messages_are_sent() {
    let token = Some(" 12:ab ".to_string());
    let chat = Some("-5 ".to_string());
    match telegram_message(&token, &chat, "a & b\n高") {
        Notification::Send(request) => {
            assert_eq!(request.url, "https://api.telegram.org/bot12:ab/sendMessage");
            assert_eq!(request.body, "chat_id=-5&text=a+%26+b%0A%E9%AB%98");
            assert_eq!(form_value(&request.body, "text"), "a & b\n高");
            assert_eq!(form_value(&request.body, "chat_id"), "-5");
        }
        Notification::Skip(_) => panic!("both settings are there"),
    }
}

#[test]
fn messages_are_skipped() {
    let set = Some("x".to_string());
    let blank = Some(" ".to_string());
    for (token, chat, name) in [
        (&None, &set, "TELEGRAM_BOT_TOKEN"),
        (&blank, &None, "TELEGRAM_BOT_TOKEN"),
        (&set, &None, "TELEGRAM_CHAT_ID"),
        (&set, &blank, "TELEGRAM_CHAT_ID"),
    ] {
        match telegram_message(token, chat, "t") {
            Notification::Skip(notice) => {
                assert_eq!(notice, format!("Telegram notification skipped: {} is not set.", name));
            }
            Notification::Send(_) => panic!("a setting is missing"),
        }
    }
}

#[test]
fn deliveries() {
    assert_eq!(delivery_notice(&Delivery::Accepted), "Telegram notification sent.");
    assert_eq!(
        delivery_notice(&Delivery::Refused { status: "404 Not Found".to_string() }),
        "Telegram notification failed: HTTP 404 Not Found"
    );
    assert_eq!(
        delivery_notice(&Delivery::Failed { error: "e".to_string() }),
        "Telegram notification failed: e"
    );
}

#[test]
fn numbers() {
    assert_eq!(write_decimal(0), "0");
    assert_eq!(write_decimal(u128::MAX), u128::MAX.to_string());
    assert_eq!(write_decimal_padded(7, 2), "07");
    assert_eq!(write_decimal_padded(65535, 4), "65535");
    assert_eq!(read_number("+042", 255), Some(42));
    assert_eq!(read_number("256", 255), None);
    assert_eq!(read_number("", 255), None);
    assert_eq!(read_number("+", 255), None);
    assert_eq!(read_number("-1", 255), None);
    assert_eq!(read_number("18446744073709551616", u64::MAX), None);
    assert_eq!(read_number("18446744073709551615", u64::MAX), Some(u64::MAX));
    assert_eq!(read_number("00000000000000000000000001", 255), Some(1));
}

#[test]
fn texts() {
    for s in ["", " ", " a b\u{3000}\u{2028}", "\u{a0}x\u{85}\t", "\u{200b}x", "\u{1c}x"] {
        assert_eq!(trim(s), s.trim());
        assert_eq!(trim(trim(s)), trim(s));
    }
    assert_eq!(trim_end_char("a//", '/'), "a");
    assert_eq!(split("a/b//", '/'), vec!["a", "b", "", ""]);
    assert_eq!(split("", '/'), vec![""]);
    assert_eq!(split_once("a:b:c", ':'), Some(("a", "b:c")));
    assert_eq!(split_once("abc", ':'), None);
    for s in ["", "a", "a\n", "a\r\nb\r\n\r\n", "\n\n", "a\rb\n", "a\r", "a\r\r\n"] {
        assert_eq!(lines(s), s.lines().collect::<Vec<_>>());
    }
    assert_eq!(join(&vec!["a".to_string(), "b".to_string()], ", "), "a, b");
    assert_eq!(join(&vec![], ", "), "");
    assert_eq!(pad_left("高", 3), format!("{:>3}", "高"));
    assert_eq!(pad_left("long", 3), "long");
    assert!(starts_with("abc", "ab") && !starts_with("a", "ab") && starts_with("a", ""));
    for (a, b) in [("", ""), ("a", ""), ("", "a"), ("a", "b"), ("ab", "a"), ("é", "z"), ("\u{ffff}", "\u{10000}")] {
        assert_eq!(is_at_most(a, b), a <= b);
    }
    assert!(same_but_for_case("Content-Length", "content-length"));
    assert!(!same_but_for_case("é", "É"));
    assert!(!same_but_for_case("a", "ab"));
}
