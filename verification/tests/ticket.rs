use thsr_booking::confirm_ticket_flow::{
    default_agree, default_diff_over, fill_ticket, has_personal_id, membership_in,
    passengers_in, process_early_bird, process_membership, ticket_for, ConfirmTicketPayload,
    EarlyBird, Passengers, Ticket,
};
use thsr_booking::page::Element;

const TYPE_FIELD: &str =
    "TicketPassengerInfoInputPanel:passengerDataView:0:passengerDataView2:passengerDataTypeName";

const FORM: &str = "dummyId=A123456789&dummyPhone=\
    &TicketMemberSystemInputPanel%3ATakerMemberSystemDataView%3AmemberSystemRadioGroup=radio44\
    &BookingS3FormSP%3Ahf%3A0=&idInputRadio=0&diffOver=1&email=&agree=on&isGoBackM=&backHome=&TgoError=1";

fn page(marks: &str) -> String {
    format!(
        "<html><body><input id=\"memberSystemRadio1\" value=\"radio40\"><input id=\"memberSystemRadio3\" value=\"radio44\">{}\
         <input name=\"{}\" value=\"Early 65\"></body></html>",
        marks, TYPE_FIELD
    )
}

fn id() -> Option<String> {
    Some(" A123456789 ".to_string())
}

fn ask(p: Passengers) -> Option<EarlyBird> {
    match p {
        Passengers::Asked(early_bird) => Some(early_bird),
        _ => None,
    }
}

#[test]
fn defaults_of_the_last_form() {
    assert_eq!(default_diff_over(), 1);
    assert_eq!(default_agree(), "on");
    let p = ConfirmTicketPayload::default();
    assert_eq!(p.member_radio, "0");
    assert_eq!(p.tgo_error, 1);
}

#[test]
fn personal_id_is_trimmed() {
    let mut p = ConfirmTicketPayload::default();
    assert_eq!(p.input_personal_id(&id()), "A123456789");
    assert_eq!(p.personal_id, "A123456789");
    assert_eq!(p.phone_num, "");
}

#[test]
fn personal_id_has_to_be_there() {
    assert!(has_personal_id(&id()));
    assert!(!has_personal_id(&None));
    assert!(!has_personal_id(&Some(" \t\u{3000}".to_string())));
}

#[test]
fn membership() {
    let page = page("");
    assert_eq!(
        process_membership(&page, &"M1".to_string(), false),
        Some(("radio44".to_string(), None))
    );
    let (radio, fields) = process_membership(&page, &"M 1".to_string(), true).unwrap();
    assert_eq!(radio, "radio40");
    assert_eq!(
        fields.unwrap(),
        "TicketMemberSystemInputPanel%3ATakerMemberSystemDataView%3AmemberSystemRadioGroup%3AmemberShipNumber=M+1\
         &TicketMemberSystemInputPanel%3ATakerMemberSystemDataView%3AmemberSystemRadioGroup%3AmemberSystemShipCheckBox=on"
    );
    assert_eq!(process_membership("<html></html>", &"M1".to_string(), false), None);
    assert_eq!(membership_in(&vec![], &"M1".to_string(), true), None);
}

#[test]
fn ticket_without_early_bird() {
    let page = page("");
    assert!(matches!(process_early_bird(&page, "A123456789"), Passengers::NotAsked));
    let request = fill_ticket(&page, &id()).unwrap().request(&None);
    assert_eq!(
        request.url,
        "https://irs.thsrc.com.tw/IMINT/?wicket:interface=:2:BookingS3Form::IFormSubmitListener"
    );
    assert_eq!(request.body, FORM);
    assert!(fill_ticket("<html></html>", &id()).is_none());
}

#[test]
fn early_bird_asks_for_every_passenger() {
    let page = page("<p class=\"superEarlyBird\">a</p><p class=\"superEarlyBird\">b</p><p class=\"superEarlyBird\"></p>");
    let mut early_bird = ask(process_early_bird(&page, "A123456789")).unwrap();
    assert_eq!(
        early_bird.prompt().unwrap(),
        "Input passenger's ID for passenger 2\n(ID change is not allowed after input!):"
    );
    assert!(!early_bird.enter(" \n"));
    assert!(early_bird.prompt().is_some());
    assert!(early_bird.enter(" B987654321\r\n"));
    assert_eq!(early_bird.prompt(), None);
    assert!(!early_bird.enter("C1"));
    let ticket: Ticket = fill_ticket(&page, &id()).unwrap();
    let request = ticket.request(&Some(early_bird));
    let p = "TicketPassengerInfoInputPanel%3ApassengerDataView%3A";
    let q = "%3ApassengerDataView2%3A";
    assert_eq!(
        request.body,
        format!(
            "{FORM}&{p}0{q}passengerDataLastName=&{p}0{q}passengerDataFirstName=&{p}0{q}passengerDataTypeName=Early+65\
             &{p}0{q}passengerDataIdNumber=A123456789&{p}0{q}passengerDataInputChoice=0\
             &{p}1{q}passengerDataLastName=&{p}1{q}passengerDataFirstName=&{p}1{q}passengerDataTypeName=Early+65\
             &{p}1{q}passengerDataIdNumber=B987654321&{p}1{q}passengerDataInputChoice=0"
        )
    );
}

#[test]
fn early_bird_of_one_asks_nothing() {
    let early_bird = EarlyBird::new(1, "T".to_string(), "A1");
    assert_eq!(early_bird.prompt(), None);
    let names: Vec<String> = early_bird.form_fields().into_iter().map(|f| f.0).collect();
    assert_eq!(names[2], TYPE_FIELD);
}

#[test]
fn passenger_names_occur_once() {
    let mut early_bird = EarlyBird::new(12, "T".to_string(), "A1");
    while early_bird.prompt().is_some() {
        assert!(early_bird.enter("X1"));
    }
    let mut names: Vec<String> = early_bird.form_fields().into_iter().map(|f| f.0).collect();
    assert_eq!(names.len(), 60);
    names.sort();
    names.dedup();
    assert_eq!(names.len(), 60);
}

#[test]
fn every_passenger_has_their_id() {
    let mut early_bird = EarlyBird::new(3, "T".to_string(), "A1");
    assert!(early_bird.enter("B2"));
    assert!(early_bird.enter("C3"));
    let ids: Vec<String> = early_bird
        .form_fields()
        .into_iter()
        .filter(|f| f.0.ends_with("IdNumber"))
        .map(|f| f.1)
        .collect();
    assert_eq!(ids, vec!["A1", "B2", "C3"]);
}

#[test]
fn typed_ids_name_the_passengers() {
    let mut early_bird = EarlyBird::new(3, "T".to_string(), "A1");
    for line in ["", " B2 ", "\t", "C3", "D4"] {
        early_bird.enter(line);
    }
    let fields = early_bird.form_fields();
    assert_eq!(fields.len(), 15);
    assert_eq!((fields[3].1.as_str(), fields[8].1.as_str(), fields[13].1.as_str()), ("A1", "B2", "C3"));
}

#[test]
fn early_bird_without_a_type() {
    let html = "<p class=\"superEarlyBird\">a</p>";
    assert!(matches!(process_early_bird(html, "A1"), Passengers::Unreadable));
    let mark = Element { attrs: vec![], texts: vec!["a".to_string()] };
    assert!(matches!(passengers_in(&vec![mark], &vec![], "A1"), Passengers::Unreadable));
    let silent = Element { attrs: vec![], texts: vec![] };
    assert!(matches!(passengers_in(&vec![silent], &vec![], "A1"), Passengers::NotAsked));
}

#[test]
fn membership_fields_come_last() {
    let ticket = ticket_for(&id(), ("radio44".to_string(), Some("m=1".to_string())));
    let early_bird = EarlyBird::new(1, "T".to_string(), "A1");
    let body = ticket.request(&Some(early_bird)).body;
    assert!(body.starts_with(&format!("{FORM}&TicketPassengerInfoInputPanel")));
    assert!(body.ends_with("passengerDataInputChoice=0&m=1"));
    assert_eq!(ticket.request(&None).body, format!("{FORM}&m=1"));
}
