use thsr_booking::booking_flow::{
    checked_in, dates_in, default_adult_ticket_num, default_child_ticket_num,
    default_college_ticket_num, default_disabled_ticket_num, default_elder_ticket_num,
    fixed_booking, image_url_in, option_in, parse_avail_start_end_date, parse_search_by,
    parse_security_code_img_url, parse_types_of_trip_value, read_offer, session_id,
    submit_form_url, BookingPayload, Offer, FIXED_DATE, FIXED_FROM, FIXED_TIME_ID, FIXED_TO,
};
use thsr_booking::date::{choose_date, date_notice, normalize_date};
use thsr_booking::page::Element;
use thsr_booking::schema::{TicketType, STATION_MAP, TIME_TABLE};

const PAGE: &str = "<html><body><form>\
    <select id=\"BookingS1Form_tripCon_typesoftrip\">\
    <option value=\"0\" selected=\"selected\">one way</option><option value=\"1\">return</option></select>\
    <input type=\"radio\" name=\"bookingMethod\" value=\"radio31\">\
    <input type=\"radio\" name=\"bookingMethod\" value=\"radio33\" checked=\"checked\">\
    <input id=\"toTimeInputField\" date=\"2026/08/28\" limit=\"2026/09/30\">\
    <img id=\"BookingS1Form_homeCaptcha_passCode\" src=\"/IMINT/code.jpg\">\
    </form></body></html>";

fn element(attrs: Vec<Option<&str>>, texts: Vec<&str>) -> Element {
    Element {
        attrs: attrs.into_iter().map(|a| a.map(str::to_string)).collect(),
        texts: texts.into_iter().map(str::to_string).collect(),
    }
}

#[test]
fn fixed_settings_name_what_they_are_meant_for() {
    assert_eq!(STATION_MAP[FIXED_FROM - 1], "Banqiao");
    assert_eq!(STATION_MAP[FIXED_TO - 1], "Taichung");
    assert_eq!(TIME_TABLE[FIXED_TIME_ID - 1], "730A");
    assert_eq!(FIXED_DATE, "2026/09/25");
}

#[test]
fn default_amounts() {
    assert_eq!(default_adult_ticket_num(), "1F");
    assert_eq!(default_child_ticket_num(), "0H");
    assert_eq!(default_disabled_ticket_num(), "0W");
    assert_eq!(default_elder_ticket_num(), "0E");
    assert_eq!(default_college_ticket_num(), "0P");
}

#[test]
fn default_booking_form() {
    let p = BookingPayload::default();
    assert_eq!(
        p.encode(),
        "selectStartStation=1&selectDestinationStation=12&bookingMethod=1&tripCon%3Atypesoftrip=0\
         &toTimeInputField=2023%2F10%2F01&toTimeTable=08%3A00&homeCaptcha%3AsecurityCode=1234\
         &seatCon%3AseatRadioGroup=0&BookingS1Form%3Ahf%3A0=&trainCon%3AtrainRadioGroup=0\
         &ticketPanel%3Arows%3A0%3AticketAmount=1F&ticketPanel%3Arows%3A1%3AticketAmount=0H\
         &ticketPanel%3Arows%3A2%3AticketAmount=0W&ticketPanel%3Arows%3A3%3AticketAmount=0E\
         &ticketPanel%3Arows%3A4%3AticketAmount=0P"
    );
}

#[test]
fn fields_with_a_value_are_sent() {
    let mut p = BookingPayload::default();
    p.inbound_date = Some("2023/10/02".to_string());
    p.inbound_time = Some("9 a&b".to_string());
    p.to_train_id = Some(7);
    p.back_train_id = Some(255);
    let names: Vec<String> = p.form_fields().into_iter().map(|f| f.0).collect();
    assert_eq!(
        names[10..14].to_vec(),
        vec!["backTimeInputField", "backTimeTable", "toTrainIDInputField", "backTrainIDInputField"]
    );
    assert!(p.encode().contains(
        "&backTimeInputField=2023%2F10%2F02&backTimeTable=9+a%26b&toTrainIDInputField=7&backTrainIDInputField=255&"
    ));
}

#[test]
fn stations_are_kept_in_a_byte() {
    let mut p = BookingPayload::default();
    p.select_start_station(5);
    p.select_dest_station(259);
    assert_eq!((p.start_station, p.dest_station), (5, 3));
}

#[test]
fn times_by_number() {
    let mut p = BookingPayload::default();
    p.select_time(6);
    assert_eq!(p.outbound_time, "730A");
    p.select_time(1);
    assert_eq!(p.outbound_time, "1201A");
    p.select_time(38);
    assert_eq!(p.outbound_time, "1130P");
    p.select_time(0);
    assert_eq!(p.outbound_time, TIME_TABLE[9]);
    p.select_time(39);
    assert_eq!(p.outbound_time, TIME_TABLE[9]);
}

#[test]
fn amounts_by_kind() {
    let mut p = BookingPayload::default();
    p.select_ticket_num(TicketType::Adult, 2);
    p.select_ticket_num(TicketType::Child, 10);
    p.select_ticket_num(TicketType::Disabled, 11);
    p.select_ticket_num(TicketType::Elder, 255);
    p.select_ticket_num(TicketType::College, 0);
    assert_eq!(p.adult_ticket_num, "2F");
    assert_eq!(p.child_ticket_num, "10H");
    assert_eq!(p.disabled_ticket_num, "10W");
    assert_eq!(p.elder_ticket_num, "10E");
    assert_eq!(p.college_ticket_num, "0P");
}

#[test]
fn seats_and_classes() {
    let mut p = BookingPayload::default();
    p.select_seat_prefer(2);
    assert_eq!(p.seat_prefer, 2);
    p.select_seat_prefer(3);
    assert_eq!(p.seat_prefer, 0);
    p.select_class_type(1);
    assert_eq!(p.class_type, 1);
    p.select_class_type(2);
    assert_eq!(p.class_type, 0);
}

#[test]
fn dates_are_normalized() {
    assert_eq!(normalize_date("2026/9/5"), Some("2026/09/05".to_string()));
    assert_eq!(normalize_date("2026/+9/05"), Some("2026/09/05".to_string()));
    assert_eq!(normalize_date("2026/09/05"), Some("2026/09/05".to_string()));
    assert_eq!(normalize_date("999/1/1"), None);
    assert_eq!(normalize_date("1000/1/1"), Some("1000/01/01".to_string()));
    assert_eq!(normalize_date("65536/1/1"), None);
    assert_eq!(normalize_date("2026/13/1"), None);
    assert_eq!(normalize_date("2026/0/1"), None);
    assert_eq!(normalize_date("2026/1/32"), None);
    assert_eq!(normalize_date("2026/2/31"), Some("2026/02/31".to_string()));
    assert_eq!(normalize_date("2026/1"), None);
    assert_eq!(normalize_date("2026/1/1/1"), None);
    assert_eq!(normalize_date("2026/1/ 1"), None);
    assert_eq!(normalize_date(""), None);
}

#[test]
fn dates_in_and_out_of_range() {
    let (a, b) = ("2026/08/28", "2026/09/30");
    assert_eq!(choose_date(a, b, "2026/9/25"), "2026/09/25");
    assert_eq!(choose_date(a, b, a), a);
    assert_eq!(choose_date(a, b, b), b);
    assert_eq!(choose_date(a, b, "2026/10/01"), a);
    assert_eq!(choose_date(a, b, "2025/12/31"), a);
    assert_eq!(choose_date(a, b, "tomorrow"), a);
    assert_eq!(date_notice(a, b, "2026/9/25"), None);
    assert_eq!(date_notice(a, b, "tomorrow"), None);
    assert_eq!(
        date_notice(a, b, "2026/10/1").unwrap(),
        "Fixed date 2026/10/1 is outside the site's available range 2026/08/28 ~ 2026/09/30; using 2026/08/28."
    );
    assert!(date_notice(b, a, "tomorrow").is_some());
}

#[test]
fn select_date_sets_the_date_alone() {
    let mut p = BookingPayload::default();
    p.select_date(&"2026/08/28".to_string(), &"2026/09/30".to_string(), &"2026/9/1".to_string());
    assert_eq!(p.outbound_date, "2026/09/01");
    assert_eq!(p.outbound_time, "08:00");
}

#[test]
fn booking_page_is_read() {
    assert_eq!(
        parse_avail_start_end_date(PAGE),
        Some(("2026/08/28".to_string(), "2026/09/30".to_string()))
    );
    assert_eq!(parse_types_of_trip_value(PAGE), Some(0));
    assert_eq!(parse_search_by(PAGE), Some("radio33".to_string()));
    assert_eq!(
        parse_security_code_img_url(PAGE),
        Some("https://irs.thsrc.com.tw/IMINT/code.jpg".to_string())
    );
}

#[test]
fn empty_page_has_no_offer() {
    let page = "<html><body></body></html>";
    assert_eq!(parse_avail_start_end_date(page), None);
    assert_eq!(parse_types_of_trip_value(page), None);
    assert_eq!(parse_search_by(page), None);
    assert_eq!(parse_security_code_img_url(page), None);
    assert!(read_offer(page).is_none());
}

#[test]
fn elements_of_the_booking_page() {
    assert_eq!(
        dates_in(&vec![element(vec![Some("b"), Some("a")], vec![])]),
        Some(("a".to_string(), "b".to_string()))
    );
    assert_eq!(dates_in(&vec![element(vec![Some("b"), None], vec![])]), None);
    assert_eq!(dates_in(&vec![]), None);
    assert_eq!(option_in(&vec![vec![vec![element(vec![Some("255")], vec![])]]]), Some(255));
    assert_eq!(option_in(&vec![vec![vec![element(vec![Some("256")], vec![])]]]), None);
    assert_eq!(option_in(&vec![vec![vec![]]]), None);
    assert_eq!(option_in(&vec![]), None);
    let a = element(vec![None, Some("x")], vec![]);
    let b = element(vec![Some(""), Some("y")], vec![]);
    let c = element(vec![Some(""), None], vec![]);
    assert_eq!(checked_in(&vec![a, b]), Some("y".to_string()));
    assert_eq!(checked_in(&vec![c]), None);
    assert_eq!(image_url_in(&vec![element(vec![Some("/x")], vec![])]), Some("https://irs.thsrc.com.tw/x".to_string()));
    assert_eq!(image_url_in(&vec![element(vec![None], vec![])]), None);
}

#[test]
fn session_comes_from_the_cookies() {
    let cookies = vec![
        ("THSRC-IRS".to_string(), "x".to_string()),
        ("JSESSIONID".to_string(), "A1".to_string()),
        ("JSESSIONID".to_string(), "B2".to_string()),
    ];
    assert_eq!(session_id(&cookies), Some("A1".to_string()));
    assert_eq!(session_id(&vec![("jsessionid".to_string(), "x".to_string())]), None);
    assert_eq!(
        submit_form_url("A1"),
        "https://irs.thsrc.com.tw/IMINT/;jsessionid=A1?wicket:interface=:0:BookingS1Form::IFormSubmitListener"
    );
}

#[test]
fn offer_is_booked() {
    let offer: Offer = read_offer(PAGE).unwrap();
    let request = offer.book("S", "ab 12".to_string());
    assert_eq!(request.url, submit_form_url("S"));
    assert_eq!(
        request.body,
        "selectStartStation=3&selectDestinationStation=7&bookingMethod=radio33&tripCon%3Atypesoftrip=0\
         &toTimeInputField=2026%2F09%2F25&toTimeTable=730A&homeCaptcha%3AsecurityCode=ab+12\
         &seatCon%3AseatRadioGroup=0&BookingS1Form%3Ahf%3A0=&trainCon%3AtrainRadioGroup=0\
         &ticketPanel%3Arows%3A0%3AticketAmount=2F&ticketPanel%3Arows%3A1%3AticketAmount=0H\
         &ticketPanel%3Arows%3A2%3AticketAmount=0W&ticketPanel%3Arows%3A3%3AticketAmount=0E\
         &ticketPanel%3Arows%3A4%3AticketAmount=0P"
    );
}

#[test]
fn fixed_booking_takes_the_first_date_where_it_must() {
    let p = fixed_booking(
        "1".to_string(),
        1,
        &"2027/01/01".to_string(),
        &"2027/02/01".to_string(),
        "code".to_string(),
    );
    assert_eq!(p.outbound_date, "2027/01/01");
    assert_eq!(p.types_of_trip, 1);
    assert_eq!(p.security_code, "code");
}
