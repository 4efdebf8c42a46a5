use thsr_booking::confirm_train_flow::{
    alerts_in, parse_alert_body, parse_discount, parse_trains, selection_notice, take_train,
    train_list, trains_in, ConfirmTrainPayload, Train,
};
use thsr_booking::page::Element;

const PAGE: &str = "<html><body><ul class=\"alert-body\"><li> first <b>alert</b> </li><li>second</li></ul>\
    <ul><li>other</li></ul>\
    <label class=\"result-item\"><input querycode=\"603\" querydeparture=\"12:01\" queryarrival=\"12:55\" queryestimatedtime=\"0:54\" value=\"radio15\"></label>\
    <label class=\"result-item\"><input querycode=\"1609\" querydeparture=\"11:46\" queryarrival=\"12:37\" queryestimatedtime=\"0:51\" value=\"radio17\">\
    <p class=\"early-bird\"><span>Early 65</span></p><p class=\"student\"><span>Student 5</span></p></label>\
    <label class=\"result-item\"><input querycode=\"7\" querydeparture=\"08:00\" queryarrival=\"08:50\" queryestimatedtime=\"0:50\" value=\"radio19\">\
    <p class=\"student\"><span>Student 7</span></p></label></body></html>";

fn train(id: u32, depart: &str, form_value: &str) -> Train {
    Train {
        id,
        depart: depart.to_string(),
        arrive: "13:00".to_string(),
        travel_time: "0:50".to_string(),
        discount_info: String::new(),
        form_value: form_value.to_string(),
    }
}

fn tag(text: &str) -> Vec<Element> {
    vec![Element { attrs: vec![], texts: vec![text.to_string()] }]
}

fn input(attrs: [&str; 5]) -> Element {
    Element { attrs: attrs.iter().map(|a| Some(a.to_string())).collect(), texts: vec![] }
}

#[test]
fn alerts_are_read() {
    assert_eq!(parse_alert_body(PAGE), vec!["first alert", "second"]);
    assert!(parse_alert_body("<ul class=\"alert-body\"></ul>").is_empty());
    let two = Element { attrs: vec![], texts: vec!["\n a".to_string(), "b ".to_string()] };
    assert_eq!(alerts_in(&vec![two]), vec!["ab"]);
}

#[test]
fn trains_are_read() {
    let trains = parse_trains(PAGE).unwrap();
    assert_eq!(trains.len(), 3);
    assert_eq!(trains[0].id, 603);
    assert_eq!(trains[0].depart, "12:01");
    assert_eq!(trains[0].arrive, "12:55");
    assert_eq!(trains[0].travel_time, "0:54");
    assert_eq!(trains[0].discount_info, "");
    assert_eq!(trains[0].form_value, "radio15");
    assert_eq!(trains[1].discount_info, "(Early 65, Student 5)");
    assert_eq!(trains[2].discount_info, "(Student 7)");
}

#[test]
fn page_without_trains() {
    assert!(parse_trains("<html></html>").unwrap().is_empty());
}

#[test]
fn unreadable_trains() {
    assert!(parse_trains("<label class=\"result-item\"></label>").is_none());
    assert!(parse_trains("<label class=\"result-item\"><input querycode=\"1\"></label>").is_none());
    let bad = input(["x", "08:00", "09:00", "1:00", "v"]);
    assert!(trains_in(&vec![vec![vec![bad], vec![], vec![]]]).is_none());
    let large = input(["4294967296", "08:00", "09:00", "1:00", "v"]);
    assert!(trains_in(&vec![vec![vec![large], vec![], vec![]]]).is_none());
    let good = input(["4294967295", "08:00", "09:00", "1:00", "v"]);
    assert_eq!(trains_in(&vec![vec![vec![good], vec![], vec![]]]).unwrap()[0].id, 4294967295);
}

#[test]
fn discounts() {
    assert_eq!(parse_discount(&tag("a"), &tag("b")), Some("(a, b)".to_string()));
    assert_eq!(parse_discount(&tag("a"), &vec![]), Some("(a)".to_string()));
    assert_eq!(parse_discount(&vec![], &vec![]), Some(String::new()));
    let empty = vec![Element { attrs: vec![], texts: vec![] }];
    assert_eq!(parse_discount(&empty, &vec![]), None);
}

#[test]
fn departure_times() {
    assert_eq!(ConfirmTrainPayload::departure_minutes("07:30"), Some(450));
    assert_eq!(ConfirmTrainPayload::departure_minutes(" 7:5\n"), Some(425));
    assert_eq!(ConfirmTrainPayload::departure_minutes("23:59"), Some(1439));
    assert_eq!(ConfirmTrainPayload::departure_minutes("00:00"), Some(0));
    assert_eq!(ConfirmTrainPayload::departure_minutes("24:00"), None);
    assert_eq!(ConfirmTrainPayload::departure_minutes("10:60"), None);
    assert_eq!(ConfirmTrainPayload::departure_minutes("1000"), None);
    assert_eq!(ConfirmTrainPayload::departure_minutes("10:00:00"), None);
    assert_eq!(ConfirmTrainPayload::departure_minutes("10: 00"), None);
    assert_eq!(ConfirmTrainPayload::departure_minutes(""), None);
}

#[test]
fn first_train_in_time_is_taken() {
    let trains = vec![train(1, "12:01", "a"), train(2, "none", "b"), train(3, "12:00", "c"), train(4, "08:00", "d")];
    let mut p = ConfirmTrainPayload::default();
    assert_eq!(p.select_available_trains(&trains), Ok(()));
    assert_eq!(p.selected_train, "c");
    assert_eq!(selection_notice(&trains), "AUTO SELECT: Train 3 12:00 -> 13:00");
    assert_eq!(p.encode(), "TrainQueryDataViewPanel%3ATrainGroup=c&BookingS2Form%3Ahf%3A0=");
}

#[test]
fn first_train_is_taken_where_it_is_in_time() {
    let trains = vec![train(1, "11:59", "a"), train(2, "08:00", "b")];
    let mut p = ConfirmTrainPayload::default();
    assert_eq!(p.select_available_trains(&trains), Ok(()));
    assert_eq!(p.selected_train, "a");
}

#[test]
fn earliest_of_an_ordered_list_is_taken() {
    let trains = vec![train(1, "07:30", "a"), train(2, "09:00", "b")];
    let mut p = ConfirmTrainPayload::default();
    assert_eq!(p.select_available_trains(&trains), Ok(()));
    assert_eq!(p.selected_train, "a");
}

#[test]
fn no_train_at_all() {
    let mut p = ConfirmTrainPayload::default();
    p.selected_train = "before".to_string();
    assert_eq!(p.select_available_trains(&[]), Err("NO_TRAIN_AVAILABLE".to_string()));
    assert_eq!(p.selected_train, "before");
    assert_eq!(selection_notice(&[]), "No available trains.");
}

#[test]
fn no_train_in_time() {
    let trains = vec![train(1, "12:01", "a"), train(2, "", "b")];
    let mut p = ConfirmTrainPayload::default();
    assert_eq!(
        p.select_available_trains(&trains),
        Err("NO_TRAIN_IN_REQUESTED_TIME_WINDOW".to_string())
    );
    assert_eq!(p.selected_train, "");
    assert_eq!(
        selection_notice(&trains),
        "No train departing between 07:30 and 12:00 is currently available."
    );
}

#[test]
fn trains_are_listed_in_columns() {
    let trains = parse_trains(PAGE).unwrap();
    assert_eq!(
        train_list(&trains),
        vec![
            " 1.  603 12:01~12:55 0:54 ",
            " 2. 1609 11:46~12:37 0:51 (Early 65, Student 5)",
            " 3.    7 08:00~08:50 0:50 (Student 7)",
        ]
    );
}

#[test]
fn train_request() {
    let request = take_train(&parse_trains(PAGE).unwrap()).unwrap();
    assert_eq!(
        request.url,
        "https://irs.thsrc.com.tw/IMINT/?wicket:interface=:1:BookingS2Form::IFormSubmitListener"
    );
    assert_eq!(request.body, "TrainQueryDataViewPanel%3ATrainGroup=radio17&BookingS2Form%3Ahf%3A0=");
    assert_eq!(take_train(&[]).unwrap_err(), "NO_TRAIN_AVAILABLE");
}
