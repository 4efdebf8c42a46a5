//! The first page of the booking: what is read off it and the form that is
//! sent back.
use vstd::prelude::*;
use vstd::string::*;
use crate::date::{choose_date, date_in_range};
use crate::form::{add_field, encode_form, encoded_form, FormRequest};
use crate::number::{
    decimal, decimal_padded, number, number_reads_decimal, number_reads_decimal_padded, read_number,
    write_decimal,
};
use crate::page::{
    attr_of, attr_of_first, find, find_below, first_attr, found, found_below, Element, ElementView,
};
use crate::schema::{TicketType, TIME_TABLE};
use crate::text::same;

verus! {

/// Banqiao.
pub const FIXED_FROM: usize = 3;

/// Taichung.
pub const FIXED_TO: usize = 7;

pub const FIXED_DATE: &'static str = "2026/09/25";

/// The number of 07:30 in the time table: the earliest departure.
pub const FIXED_TIME_ID: usize = 6;

pub const FIXED_ADULTS: u8 = 2;

pub const FIXED_STUDENTS: u8 = 0;

/// Any seat.
pub const FIXED_SEAT_PREFERENCE: usize = 0;

/// Standard class.
pub const FIXED_CLASS_TYPE: usize = 0;

pub const BASE_URL: &'static str = "https://irs.thsrc.com.tw";

pub const BOOKING_PAGE_URL: &'static str = "https://irs.thsrc.com.tw/IMINT/?locale=tw";

/// The form of the first page.
#[derive(Debug)]
pub struct BookingPayload {
    pub start_station: u8,
    pub dest_station: u8,
    pub search_by: String,
    /// 0: one way, 1: round trip
    pub types_of_trip: u8,
    pub outbound_date: String,
    pub outbound_time: String,
    pub security_code: String,
    /// 0: any, 1: window, 2: aisle
    pub seat_prefer: usize,
    pub form_mark: String,
    /// 0: standard, 1: business
    pub class_type: u8,
    pub inbound_date: Option<String>,
    pub inbound_time: Option<String>,
    pub to_train_id: Option<u8>,
    pub back_train_id: Option<u8>,
    pub adult_ticket_num: String,
    pub child_ticket_num: String,
    pub disabled_ticket_num: String,
    pub elder_ticket_num: String,
    pub college_ticket_num: String,
}

pub fn default_adult_ticket_num() -> (r: String)
    ensures
        r@ == "1F"@,
{
    "1F".to_string()
}

pub fn default_child_ticket_num() -> (r: String)
    ensures
        r@ == "0H"@,
{
    "0H".to_string()
}

pub fn default_disabled_ticket_num() -> (r: String)
    ensures
        r@ == "0W"@,
{
    "0W".to_string()
}

pub fn default_elder_ticket_num() -> (r: String)
    ensures
        r@ == "0E"@,
{
    "0E".to_string()
}

pub fn default_college_ticket_num() -> (r: String)
    ensures
        r@ == "0P"@,
{
    "0P".to_string()
}

impl Default for BookingPayload {
    fn default() -> (r: Self)
        ensures
            r.start_station == 1,
            r.dest_station == 12,
            r.search_by@ == "1"@,
            r.types_of_trip == 0,
            r.outbound_date@ == "2023/10/01"@,
            r.outbound_time@ == "08:00"@,
            r.security_code@ == "1234"@,
            r.seat_prefer == 0,
            r.form_mark@ == ""@,
            r.class_type == 0,
            r.inbound_date is None,
            r.inbound_time is None,
            r.to_train_id is None,
            r.back_train_id is None,
            r.adult_ticket_num@ == "1F"@,
            r.child_ticket_num@ == "0H"@,
            r.disabled_ticket_num@ == "0W"@,
            r.elder_ticket_num@ == "0E"@,
            r.college_ticket_num@ == "0P"@,
    {
        BookingPayload {
            start_station: 1,
            dest_station: 12,
            search_by: "1".to_string(),
            types_of_trip: 0,
            outbound_date: "2023/10/01".to_string(),
            outbound_time: "08:00".to_string(),
            security_code: "1234".to_string(),
            seat_prefer: 0,
            form_mark: "".to_string(),
            class_type: 0,
            inbound_date: None,
            inbound_time: None,
            to_train_id: None,
            back_train_id: None,
            adult_ticket_num: default_adult_ticket_num(),
            child_ticket_num: default_child_ticket_num(),
            disabled_ticket_num: default_disabled_ticket_num(),
            elder_ticket_num: default_elder_ticket_num(),
            college_ticket_num: default_college_ticket_num(),
        }
    }
}

/// The entry of the time table with the number `opt`, and the tenth where there
/// is no such number.
pub open spec fn time_entry(opt: int) -> Seq<char> {
    if 1 <= opt <= TIME_TABLE@.len() {
        TIME_TABLE@[opt - 1]@
    } else {
        TIME_TABLE@[9]@
    }
}

/// An amount of tickets in the form: at most ten, and the letter of their kind.
pub open spec fn ticket_amount(ticket_type: TicketType, val: int) -> Seq<char> {
    decimal(
        if val <= 10 {
            val as nat
        } else {
            10
        },
    ).push(ticket_type.mark())
}

impl BookingPayload {
    /// The amount of tickets of a kind that the form asks for.
    pub open spec fn tickets(self, ticket_type: TicketType) -> Seq<char> {
        match ticket_type {
            TicketType::Adult => self.adult_ticket_num@,
            TicketType::Child => self.child_ticket_num@,
            TicketType::Disabled => self.disabled_ticket_num@,
            TicketType::Elder => self.elder_ticket_num@,
            TicketType::College => self.college_ticket_num@,
        }
    }

    pub fn select_start_station(&mut self, from: usize)
        ensures
            *final(self) == (BookingPayload { start_station: (from % 256) as u8, ..*old(self) }),
            from < 256 ==> final(self).start_station == from,
    {
        self.start_station = (from % 256) as u8;
    }

    pub fn select_dest_station(&mut self, to: usize)
        ensures
            *final(self) == (BookingPayload { dest_station: (to % 256) as u8, ..*old(self) }),
            to < 256 ==> final(self).dest_station == to,
    {
        self.dest_station = (to % 256) as u8;
    }

    /// Takes the code that was read off the CAPTCHA image.
    pub fn input_security_code(&mut self, code: String)
        ensures
            *final(self) == (BookingPayload { security_code: code, ..*old(self) }),
    {
        self.security_code = code;
    }

    /// Takes the wanted date where the site offers it, and the first that the
    /// site offers where it does not.
    pub fn select_date(&mut self, start_date: &String, end_date: &String, date: &String)
        ensures
            *final(self) == (BookingPayload {
                outbound_date: final(self).outbound_date,
                ..*old(self)
            }),
            final(self).outbound_date@ == date_in_range(start_date@, end_date@, date@),
    {
        self.outbound_date = choose_date(start_date.as_str(), end_date.as_str(), date.as_str());
    }

    pub fn select_time(&mut self, opt: usize)
        ensures
            *final(self) == (BookingPayload {
                outbound_time: final(self).outbound_time,
                ..*old(self)
            }),
            final(self).outbound_time@ == time_entry(opt as int),
    {
        if opt == 0 || opt > TIME_TABLE.len() {
            self.outbound_time = TIME_TABLE[9].to_string();
        } else {
            self.outbound_time = TIME_TABLE[opt - 1].to_string();
        }
    }

    /// Sets the amount of tickets of one kind, ten at most, and leaves the
    /// amounts of the other kinds.
    pub fn select_ticket_num(&mut self, ticket_type: TicketType, val: u8)
        ensures
            final(self).tickets(ticket_type) == ticket_amount(ticket_type, val as int),
            *final(self) == (match ticket_type {
                TicketType::Adult => BookingPayload {
                    adult_ticket_num: final(self).adult_ticket_num,
                    ..*old(self)
                },
                TicketType::Child => BookingPayload {
                    child_ticket_num: final(self).child_ticket_num,
                    ..*old(self)
                },
                TicketType::Disabled => BookingPayload {
                    disabled_ticket_num: final(self).disabled_ticket_num,
                    ..*old(self)
                },
                TicketType::Elder => BookingPayload {
                    elder_ticket_num: final(self).elder_ticket_num,
                    ..*old(self)
                },
                TicketType::College => BookingPayload {
                    college_ticket_num: final(self).college_ticket_num,
                    ..*old(self)
                },
            }),
    {
        let amount: u8 = if val <= 10 { val } else { 10 };
        let mut s: String = write_decimal(amount as u128);
        s.push(ticket_type.letter());
        match ticket_type {
            TicketType::Adult => {
                self.adult_ticket_num = s;
            },
            TicketType::Child => {
                self.child_ticket_num = s;
            },
            TicketType::Disabled => {
                self.disabled_ticket_num = s;
            },
            TicketType::Elder => {
                self.elder_ticket_num = s;
            },
            TicketType::College => {
                self.college_ticket_num = s;
            },
        }
    }

    pub fn select_seat_prefer(&mut self, prefer: usize)
        ensures
            *final(self) == (BookingPayload {
                seat_prefer: if prefer <= 2 {
                    prefer
                } else {
                    0
                },
                ..*old(self)
            }),
            prefer <= 2 ==> final(self).seat_prefer == prefer,
            prefer > 2 ==> final(self).seat_prefer == 0,
    {
        self.seat_prefer = if prefer <= 2 { prefer } else { 0 };
    }

    pub fn select_class_type(&mut self, class_type: usize)
        ensures
            *final(self) == (BookingPayload {
                class_type: if class_type <= 1 {
                    class_type as u8
                } else {
                    0
                },
                ..*old(self)
            }),
            class_type <= 1 ==> final(self).class_type == class_type,
            class_type > 1 ==> final(self).class_type == 0,
    {
        self.class_type = if class_type <= 1 { class_type as u8 } else { 0 };
    }
}

/// The pair of name and value, if there is a value.
pub open spec fn field_if(name: Seq<char>, value: Option<Seq<char>>) -> Seq<
    (Seq<char>, Seq<char>),
> {
    match value {
        Some(v) => seq![(name, v)],
        None => seq![],
    }
}

/// A number in decimal digits, if there is one.
pub open spec fn decimal_if(value: Option<u8>) -> Option<Seq<char>> {
    match value {
        Some(n) => Some(decimal(n as nat)),
        None => None,
    }
}

fn add_field_if(fields: &mut Vec<(String, String)>, name: &str, value: &Option<String>)
    ensures
        final(fields).deep_view() == old(fields).deep_view() + field_if(name@, value.deep_view()),
{
    match value {
        Some(v) => {
            add_field(fields, name, v.as_str());
        },
        None => {},
    }
    assert(fields.deep_view() =~= old(fields).deep_view() + field_if(name@, value.deep_view()));
}

fn write_decimal_if(value: Option<u8>) -> (r: Option<String>)
    ensures
        r.deep_view() == decimal_if(value),
{
    match value {
        Some(n) => Some(write_decimal(n as u128)),
        None => None,
    }
}

impl BookingPayload {
    /// The form as the site expects it: its fields under their names, in their
    /// order, without those that have no value.
    pub open spec fn fields(self) -> Seq<(Seq<char>, Seq<char>)> {
        seq![
            ("selectStartStation"@, decimal(self.start_station as nat)),
            ("selectDestinationStation"@, decimal(self.dest_station as nat)),
            ("bookingMethod"@, self.search_by@),
            ("tripCon:typesoftrip"@, decimal(self.types_of_trip as nat)),
            ("toTimeInputField"@, self.outbound_date@),
            ("toTimeTable"@, self.outbound_time@),
            ("homeCaptcha:securityCode"@, self.security_code@),
            ("seatCon:seatRadioGroup"@, decimal(self.seat_prefer as nat)),
            ("BookingS1Form:hf:0"@, self.form_mark@),
            ("trainCon:trainRadioGroup"@, decimal(self.class_type as nat)),
        ] + field_if("backTimeInputField"@, self.inbound_date.deep_view()) + field_if(
            "backTimeTable"@,
            self.inbound_time.deep_view(),
        ) + field_if("toTrainIDInputField"@, decimal_if(self.to_train_id)) + field_if(
            "backTrainIDInputField"@,
            decimal_if(self.back_train_id),
        ) + seq![
            ("ticketPanel:rows:0:ticketAmount"@, self.adult_ticket_num@),
            ("ticketPanel:rows:1:ticketAmount"@, self.child_ticket_num@),
            ("ticketPanel:rows:2:ticketAmount"@, self.disabled_ticket_num@),
            ("ticketPanel:rows:3:ticketAmount"@, self.elder_ticket_num@),
            ("ticketPanel:rows:4:ticketAmount"@, self.college_ticket_num@),
        ]
    }

    /// The fields of the form under the names that the site gives them.
    pub fn form_fields(&self) -> (r: Vec<(String, String)>)
        ensures
            r.deep_view() == self.fields(),
    {
        let mut f: Vec<(String, String)> = Vec::new();
        assert(f.deep_view() =~= seq![]);
        add_field(&mut f, "selectStartStation", write_decimal(self.start_station as u128).as_str());
        add_field(
            &mut f,
            "selectDestinationStation",
            write_decimal(self.dest_station as u128).as_str(),
        );
        add_field(&mut f, "bookingMethod", self.search_by.as_str());
        add_field(&mut f, "tripCon:typesoftrip", write_decimal(self.types_of_trip as u128).as_str());
        add_field(&mut f, "toTimeInputField", self.outbound_date.as_str());
        add_field(&mut f, "toTimeTable", self.outbound_time.as_str());
        add_field(&mut f, "homeCaptcha:securityCode", self.security_code.as_str());
        add_field(&mut f, "seatCon:seatRadioGroup", write_decimal(self.seat_prefer as u128).as_str());
        add_field(&mut f, "BookingS1Form:hf:0", self.form_mark.as_str());
        add_field(&mut f, "trainCon:trainRadioGroup", write_decimal(self.class_type as u128).as_str());
        add_field_if(&mut f, "backTimeInputField", &self.inbound_date);
        add_field_if(&mut f, "backTimeTable", &self.inbound_time);
        add_field_if(&mut f, "toTrainIDInputField", &write_decimal_if(self.to_train_id));
        add_field_if(&mut f, "backTrainIDInputField", &write_decimal_if(self.back_train_id));
        add_field(&mut f, "ticketPanel:rows:0:ticketAmount", self.adult_ticket_num.as_str());
        add_field(&mut f, "ticketPanel:rows:1:ticketAmount", self.child_ticket_num.as_str());
        add_field(&mut f, "ticketPanel:rows:2:ticketAmount", self.disabled_ticket_num.as_str());
        add_field(&mut f, "ticketPanel:rows:3:ticketAmount", self.elder_ticket_num.as_str());
        add_field(&mut f, "ticketPanel:rows:4:ticketAmount", self.college_ticket_num.as_str());
        assert(f.deep_view() =~= self.fields());
        f
    }

    /// The body of the request that sends the form.
    pub fn encode(&self) -> (r: String)
        ensures
            r@ == encoded_form(self.fields()),
    {
        encode_form(&self.form_fields())
    }
}

/// The first and the last date that the site offers, off the date field: its
/// attributes `limit` and `date`.
pub open spec fn offered_dates(fields: Seq<ElementView>) -> Option<(Seq<char>, Seq<char>)> {
    match (first_attr(fields, 0), first_attr(fields, 1)) {
        (Some(end), Some(start)) => Some((start, end)),
        _ => None,
    }
}

/// The first and the last date that the date field offers.
pub fn dates_in(fields: &Vec<Element>) -> (r: Option<(String, String)>)
    ensures
        r.deep_view() == offered_dates(fields.deep_view()),
{
    match (attr_of_first(fields, 0), attr_of_first(fields, 1)) {
        (Some(end), Some(start)) => Some((start, end)),
        _ => None,
    }
}

/// The first and the last date that the site offers; nothing where the page
/// does not say.
pub fn parse_avail_start_end_date(page: &str) -> (r: Option<(String, String)>)
    ensures
        r.deep_view() == offered_dates(
            found(page@, "#toTimeInputField"@, seq!["limit"@, "date"@]),
        ),
{
    let names: [&str; 2] = ["limit", "date"];
    assert(names.deep_view() =~= seq!["limit"@, "date"@]);
    proof {
        reveal_strlit("#toTimeInputField");
    }
    dates_in(&find(page, "#toTimeInputField", &names))
}

/// The number in the `value` of the first option below the first element.
pub open spec fn first_option(lists: Seq<Seq<Seq<ElementView>>>) -> Option<nat> {
    if lists.len() > 0 && lists[0].len() > 0 {
        match first_attr(lists[0][0], 0) {
            Some(value) => number(value, u8::MAX as nat),
            None => None,
        }
    } else {
        None
    }
}

/// The number in the `value` of the first option below the first element.
pub fn option_in(lists: &Vec<Vec<Vec<Element>>>) -> (r: Option<u8>)
    ensures
        match r {
            Some(n) => first_option(lists.deep_view()) == Some(n as nat),
            None => first_option(lists.deep_view()) is None,
        },
{
    if lists.len() > 0 && lists[0].len() > 0 {
        assert(lists.deep_view()[0][0] == lists@[0]@[0].deep_view());
        match attr_of_first(&lists[0][0], 0) {
            Some(value) => match read_number(value.as_str(), u8::MAX as u64) {
                Some(n) => Some(n as u8),
                None => None,
            },
            None => None,
        }
    } else {
        None
    }
}

/// The type of trip that the page has selected; nothing where it has none.
pub fn parse_types_of_trip_value(page: &str) -> (r: Option<u8>)
    ensures
        ({
            let options = found_below(
                page@,
                "#BookingS1Form_tripCon_typesoftrip"@,
                seq!["[selected='selected']"@],
                seq!["value"@],
            );
            match r {
                Some(n) => first_option(options) == Some(n as nat),
                None => first_option(options) is None,
            }
        }),
{
    let inner: [&str; 1] = ["[selected='selected']"];
    let names: [&str; 1] = ["value"];
    assert(inner.deep_view() =~= seq!["[selected='selected']"@]);
    assert(names.deep_view() =~= seq!["value"@]);
    proof {
        reveal_strlit("#BookingS1Form_tripCon_typesoftrip");
        reveal_strlit("[selected='selected']");
    }
    option_in(&find_below(page, "#BookingS1Form_tripCon_typesoftrip", &inner, &names))
}

/// The `value` of the first radio button that is `checked`.
pub open spec fn checked_value(buttons: Seq<ElementView>) -> Option<Seq<char>>
    decreases buttons.len(),
{
    if buttons.len() == 0 {
        None
    } else if attr_of(buttons[0], 0) is Some {
        attr_of(buttons[0], 1)
    } else {
        checked_value(buttons.drop_first())
    }
}

/// The `value` of the first radio button that is `checked`.
pub fn checked_in(buttons: &Vec<Element>) -> (r: Option<String>)
    ensures
        r.deep_view() == checked_value(buttons.deep_view()),
{
    let mut i: usize = 0;
    let ghost all = buttons.deep_view();
    assert(all.skip(0) =~= all);
    while i < buttons.len()
        invariant
            all == buttons.deep_view(),
            i <= buttons.len(),
            checked_value(all) == checked_value(all.skip(i as int)),
        decreases buttons.len() - i,
    {
        assert(all.skip(i as int)[0] == buttons@[i as int].deep_view());
        assert(all.skip(i as int).drop_first() =~= all.skip(i + 1));
        if buttons[i].attr(0).is_some() {
            return buttons[i].attr(1);
        }
        i = i + 1;
    }
    None
}

/// The booking method that the page has checked; nothing where it has none.
pub fn parse_search_by(page: &str) -> (r: Option<String>)
    ensures
        r.deep_view() == checked_value(
            found(page@, "input[name='bookingMethod']"@, seq!["checked"@, "value"@]),
        ),
{
    let names: [&str; 2] = ["checked", "value"];
    assert(names.deep_view() =~= seq!["checked"@, "value"@]);
    proof {
        reveal_strlit("input[name='bookingMethod']");
    }
    checked_in(&find(page, "input[name='bookingMethod']", &names))
}

/// The address of the CAPTCHA image, from the image's `src` on the site.
pub open spec fn image_url(images: Seq<ElementView>) -> Option<Seq<char>> {
    match first_attr(images, 0) {
        Some(src) => Some(BASE_URL@ + src),
        None => None,
    }
}

/// The address of the CAPTCHA image among the elements.
pub fn image_url_in(images: &Vec<Element>) -> (r: Option<String>)
    ensures
        r.deep_view() == image_url(images.deep_view()),
{
    match attr_of_first(images, 0) {
        Some(src) => {
            let mut url: String = BASE_URL.to_string();
            url.append(src.as_str());
            Some(url)
        },
        None => None,
    }
}

/// The address of the CAPTCHA image; nothing where the page has no image.
pub fn parse_security_code_img_url(page: &str) -> (r: Option<String>)
    ensures
        r.deep_view() == image_url(
            found(page@, "#BookingS1Form_homeCaptcha_passCode"@, seq!["src"@]),
        ),
{
    let names: [&str; 1] = ["src"];
    assert(names.deep_view() =~= seq!["src"@]);
    proof {
        reveal_strlit("#BookingS1Form_homeCaptcha_passCode");
    }
    image_url_in(&find(page, "#BookingS1Form_homeCaptcha_passCode", &names))
}

/// The value of the first cookie with the name `JSESSIONID`.
pub open spec fn session_cookie(cookies: Seq<(Seq<char>, Seq<char>)>) -> Option<Seq<char>>
    decreases cookies.len(),
{
    if cookies.len() == 0 {
        None
    } else if cookies[0].0 == "JSESSIONID"@ {
        Some(cookies[0].1)
    } else {
        session_cookie(cookies.drop_first())
    }
}

/// The session that the site's cookies name; nothing where they name none.
pub fn session_id(cookies: &Vec<(String, String)>) -> (r: Option<String>)
    ensures
        r.deep_view() == session_cookie(cookies.deep_view()),
{
    let mut i: usize = 0;
    let ghost all = cookies.deep_view();
    assert(all.skip(0) =~= all);
    while i < cookies.len()
        invariant
            all == cookies.deep_view(),
            i <= cookies.len(),
            session_cookie(all) == session_cookie(all.skip(i as int)),
        decreases cookies.len() - i,
    {
        assert(all.skip(i as int)[0] == cookies@[i as int].deep_view());
        assert(all.skip(i as int).drop_first() =~= all.skip(i + 1));
        if same(cookies[i].0.as_str(), "JSESSIONID") {
            return Some(cookies[i].1.clone());
        }
        i = i + 1;
    }
    None
}

/// The address that takes the form of the first page, for a session.
pub open spec fn form_url(session: Seq<char>) -> Seq<char> {
    "https://irs.thsrc.com.tw/IMINT/;jsessionid="@ + session
        + "?wicket:interface=:0:BookingS1Form::IFormSubmitListener"@
}

/// The address that takes the form of the first page, for a session.
pub fn submit_form_url(session: &str) -> (r: String)
    ensures
        r@ == form_url(session@),
{
    let mut url: String = "https://irs.thsrc.com.tw/IMINT/;jsessionid=".to_string();
    url.append(session);
    url.append("?wicket:interface=:0:BookingS1Form::IFormSubmitListener");
    url
}

/// The form has the fixed settings, for what the page offers: everything but
/// the security code.
pub open spec fn has_fixed_settings(
    form: BookingPayload,
    search_by: Seq<char>,
    types_of_trip: nat,
    start_date: Seq<char>,
    end_date: Seq<char>,
) -> bool {
    &&& form.start_station == FIXED_FROM
    &&& form.dest_station == FIXED_TO
    &&& form.search_by@ == search_by
    &&& form.types_of_trip == types_of_trip
    &&& form.outbound_date@ == date_in_range(start_date, end_date, FIXED_DATE@)
    &&& form.outbound_time@ == time_entry(FIXED_TIME_ID as int)
    &&& form.seat_prefer == FIXED_SEAT_PREFERENCE
    &&& form.form_mark@ == ""@
    &&& form.class_type == FIXED_CLASS_TYPE
    &&& form.inbound_date is None
    &&& form.inbound_time is None
    &&& form.to_train_id is None
    &&& form.back_train_id is None
    &&& form.adult_ticket_num@ == ticket_amount(TicketType::Adult, FIXED_ADULTS as int)
    &&& form.child_ticket_num@ == "0H"@
    &&& form.disabled_ticket_num@ == "0W"@
    &&& form.elder_ticket_num@ == "0E"@
    &&& form.college_ticket_num@ == (if FIXED_STUDENTS > 0 {
        ticket_amount(TicketType::College, FIXED_STUDENTS as int)
    } else {
        "0P"@
    })
}

/// The form with the fixed settings, for what the page offers and the code that
/// was read off its CAPTCHA.
pub fn fixed_booking(
    search_by: String,
    types_of_trip: u8,
    start_date: &String,
    end_date: &String,
    code: String,
) -> (r: BookingPayload)
    ensures
        has_fixed_settings(r, search_by@, types_of_trip as nat, start_date@, end_date@),
        r.security_code == code,
{
    let mut payload: BookingPayload = BookingPayload::default();
    payload.search_by = search_by;
    payload.types_of_trip = types_of_trip;
    payload.select_start_station(FIXED_FROM);
    payload.select_dest_station(FIXED_TO);
    payload.select_date(start_date, end_date, &FIXED_DATE.to_string());
    payload.select_time(FIXED_TIME_ID);
    payload.select_ticket_num(TicketType::Adult, FIXED_ADULTS);
    if FIXED_STUDENTS > 0 {
        payload.select_ticket_num(TicketType::College, FIXED_STUDENTS);
    }
    payload.select_seat_prefer(FIXED_SEAT_PREFERENCE);
    payload.select_class_type(FIXED_CLASS_TYPE);
    payload.input_security_code(code);
    payload
}

/// The fields of the form with the fixed settings.
pub open spec fn fixed_fields(
    search_by: Seq<char>,
    types_of_trip: nat,
    start_date: Seq<char>,
    end_date: Seq<char>,
    code: Seq<char>,
) -> Seq<(Seq<char>, Seq<char>)> {
    seq![
        ("selectStartStation"@, decimal(FIXED_FROM as nat)),
        ("selectDestinationStation"@, decimal(FIXED_TO as nat)),
        ("bookingMethod"@, search_by),
        ("tripCon:typesoftrip"@, decimal(types_of_trip)),
        ("toTimeInputField"@, date_in_range(start_date, end_date, FIXED_DATE@)),
        ("toTimeTable"@, time_entry(FIXED_TIME_ID as int)),
        ("homeCaptcha:securityCode"@, code),
        ("seatCon:seatRadioGroup"@, decimal(FIXED_SEAT_PREFERENCE as nat)),
        ("BookingS1Form:hf:0"@, ""@),
        ("trainCon:trainRadioGroup"@, decimal(FIXED_CLASS_TYPE as nat)),
        (
            "ticketPanel:rows:0:ticketAmount"@,
            ticket_amount(TicketType::Adult, FIXED_ADULTS as int),
        ),
        ("ticketPanel:rows:1:ticketAmount"@, "0H"@),
        ("ticketPanel:rows:2:ticketAmount"@, "0W"@),
        ("ticketPanel:rows:3:ticketAmount"@, "0E"@),
        (
            "ticketPanel:rows:4:ticketAmount"@,
            if FIXED_STUDENTS > 0 {
                ticket_amount(TicketType::College, FIXED_STUDENTS as int)
            } else {
                "0P"@
            },
        ),
    ]
}

/// What the first page says of the booking that it offers.
#[derive(Debug)]
pub struct Offer {
    pub search_by: String,
    pub types_of_trip: u8,
    pub start_date: String,
    pub end_date: String,
}

impl Offer {
    /// The request that books the fixed settings, with the code that was read
    /// off the CAPTCHA.
    pub fn book(self, session: &str, code: String) -> (r: FormRequest)
        ensures
            r.url@ == form_url(session@),
            r.body@ == encoded_form(
                fixed_fields(
                    self.search_by@,
                    self.types_of_trip as nat,
                    self.start_date@,
                    self.end_date@,
                    code@,
                ),
            ),
            exists|form: BookingPayload|
                {
                    &&& has_fixed_settings(
                        form,
                        self.search_by@,
                        self.types_of_trip as nat,
                        self.start_date@,
                        self.end_date@,
                    )
                    &&& form.security_code == code
                    &&& r.body@ == encoded_form(#[trigger] form.fields())
                },
    {
        let form: BookingPayload = fixed_booking(
            self.search_by,
            self.types_of_trip,
            &self.start_date,
            &self.end_date,
            code,
        );
        assert(form.fields() =~= fixed_fields(
            self.search_by@,
            self.types_of_trip as nat,
            self.start_date@,
            self.end_date@,
            code@,
        ));
        FormRequest { url: submit_form_url(session), body: form.encode() }
    }
}

/// What the first page offers; nothing where it does not say.
pub fn read_offer(page: &str) -> (r: Option<Offer>)
    ensures
        match (
            checked_value(
                found(page@, "input[name='bookingMethod']"@, seq!["checked"@, "value"@]),
            ),
            first_option(
                found_below(
                    page@,
                    "#BookingS1Form_tripCon_typesoftrip"@,
                    seq!["[selected='selected']"@],
                    seq!["value"@],
                ),
            ),
            offered_dates(found(page@, "#toTimeInputField"@, seq!["limit"@, "date"@])),
        ) {
            (Some(search_by), Some(types_of_trip), Some((start_date, end_date))) => {
                &&& r matches Some(offer)
                &&& offer.search_by@ == search_by
                &&& offer.types_of_trip == types_of_trip
                &&& offer.start_date@ == start_date
                &&& offer.end_date@ == end_date
            },
            _ => r is None,
        },
{
    match (
        parse_search_by(page),
        parse_types_of_trip_value(page),
        parse_avail_start_end_date(page),
    ) {
        (Some(search_by), Some(types_of_trip), Some((start_date, end_date))) => Some(
            Offer { search_by, types_of_trip, start_date, end_date },
        ),
        _ => None,
    }
}

/// The minute of the day of an entry of the time table: one minute after
/// midnight, half past midnight, and every half hour from six.
pub open spec fn table_minute(opt: int) -> int {
    if opt == 1 {
        1
    } else if opt == 2 {
        30
    } else {
        360 + 30 * (opt - 3)
    }
}

/// A minute of the day as the form of the site writes it: the hour of a clock
/// with twelve, two digits of minutes, and `A`, `P` or, at noon, `N`.
pub open spec fn clock_name(minute_of_day: int) -> Seq<char> {
    let hour = minute_of_day / 60;
    let minute = minute_of_day % 60;
    decimal(
        if hour % 12 == 0 {
            12
        } else {
            (hour % 12) as nat
        },
    ) + seq!["0123456789"@[minute / 10], "0123456789"@[minute % 10]] + seq![
        if hour < 12 {
            'A'
        } else if minute_of_day == 720 {
            'N'
        } else {
            'P'
        },
    ]
}

/// A number of the time table chooses the time of that number, and any other
/// number half past nine.
#[verifier::rlimit(100)]
#[verifier::spinoff_prover]
pub proof fn times_are_chosen_by_number(opt: int)
    ensures
        time_entry(opt) == clock_name(
            if 1 <= opt <= 38 {
                table_minute(opt)
            } else {
                570
            },
        ),
{
    reveal_strlit("0123456789");
    reveal_with_fuel(decimal, 3);
    reveal_strlit("1201A");
    reveal_strlit("1230A");
    reveal_strlit("600A");
    reveal_strlit("630A");
    reveal_strlit("700A");
    reveal_strlit("730A");
    reveal_strlit("800A");
    reveal_strlit("830A");
    reveal_strlit("900A");
    reveal_strlit("930A");
    reveal_strlit("1000A");
    reveal_strlit("1030A");
    reveal_strlit("1100A");
    reveal_strlit("1130A");
    reveal_strlit("1200N");
    reveal_strlit("1230P");
    reveal_strlit("100P");
    reveal_strlit("130P");
    reveal_strlit("200P");
    reveal_strlit("230P");
    reveal_strlit("300P");
    reveal_strlit("330P");
    reveal_strlit("400P");
    reveal_strlit("430P");
    reveal_strlit("500P");
    reveal_strlit("530P");
    reveal_strlit("600P");
    reveal_strlit("630P");
    reveal_strlit("700P");
    reveal_strlit("730P");
    reveal_strlit("800P");
    reveal_strlit("830P");
    reveal_strlit("900P");
    reveal_strlit("930P");
    reveal_strlit("1000P");
    reveal_strlit("1030P");
    reveal_strlit("1100P");
    reveal_strlit("1130P");
    assert(TIME_TABLE@[0]@ =~= clock_name(table_minute(1)));
    assert(TIME_TABLE@[1]@ =~= clock_name(table_minute(2)));
    assert(TIME_TABLE@[2]@ =~= clock_name(table_minute(3)));
    assert(TIME_TABLE@[3]@ =~= clock_name(table_minute(4)));
    assert(TIME_TABLE@[4]@ =~= clock_name(table_minute(5)));
    assert(TIME_TABLE@[5]@ =~= clock_name(table_minute(6)));
    assert(TIME_TABLE@[6]@ =~= clock_name(table_minute(7)));
    assert(TIME_TABLE@[7]@ =~= clock_name(table_minute(8)));
    assert(TIME_TABLE@[8]@ =~= clock_name(table_minute(9)));
    assert(TIME_TABLE@[9]@ =~= clock_name(table_minute(10)));
    assert(TIME_TABLE@[10]@ =~= clock_name(table_minute(11)));
    assert(TIME_TABLE@[11]@ =~= clock_name(table_minute(12)));
    assert(TIME_TABLE@[12]@ =~= clock_name(table_minute(13)));
    assert(TIME_TABLE@[13]@ =~= clock_name(table_minute(14)));
    assert(TIME_TABLE@[14]@ =~= clock_name(table_minute(15)));
    assert(TIME_TABLE@[15]@ =~= clock_name(table_minute(16)));
    assert(TIME_TABLE@[16]@ =~= clock_name(table_minute(17)));
    assert(TIME_TABLE@[17]@ =~= clock_name(table_minute(18)));
    assert(TIME_TABLE@[18]@ =~= clock_name(table_minute(19)));
    assert(TIME_TABLE@[19]@ =~= clock_name(table_minute(20)));
    assert(TIME_TABLE@[20]@ =~= clock_name(table_minute(21)));
    assert(TIME_TABLE@[21]@ =~= clock_name(table_minute(22)));
    assert(TIME_TABLE@[22]@ =~= clock_name(table_minute(23)));
    assert(TIME_TABLE@[23]@ =~= clock_name(table_minute(24)));
    assert(TIME_TABLE@[24]@ =~= clock_name(table_minute(25)));
    assert(TIME_TABLE@[25]@ =~= clock_name(table_minute(26)));
    assert(TIME_TABLE@[26]@ =~= clock_name(table_minute(27)));
    assert(TIME_TABLE@[27]@ =~= clock_name(table_minute(28)));
    assert(TIME_TABLE@[28]@ =~= clock_name(table_minute(29)));
    assert(TIME_TABLE@[29]@ =~= clock_name(table_minute(30)));
    assert(TIME_TABLE@[30]@ =~= clock_name(table_minute(31)));
    assert(TIME_TABLE@[31]@ =~= clock_name(table_minute(32)));
    assert(TIME_TABLE@[32]@ =~= clock_name(table_minute(33)));
    assert(TIME_TABLE@[33]@ =~= clock_name(table_minute(34)));
    assert(TIME_TABLE@[34]@ =~= clock_name(table_minute(35)));
    assert(TIME_TABLE@[35]@ =~= clock_name(table_minute(36)));
    assert(TIME_TABLE@[36]@ =~= clock_name(table_minute(37)));
    assert(TIME_TABLE@[37]@ =~= clock_name(table_minute(38)));
    assert(time_entry(opt) == TIME_TABLE@[if 1 <= opt <= 38 {
        opt - 1
    } else {
        9
    }]@);
}

/// An amount of tickets is written as the number that was asked for, ten at
/// most, and the letter of its kind behind it.
pub proof fn amounts_are_written(ticket_type: TicketType, val: nat)
    ensures
        ({
            let s = ticket_amount(ticket_type, val as int);
            &&& s.len() > 0
            &&& number(s.drop_last(), 10) == Some(
                if val <= 10 {
                    val
                } else {
                    10
                },
            )
            &&& s.last() == (match ticket_type {
                TicketType::Adult => 'F',
                TicketType::Child => 'H',
                TicketType::Disabled => 'W',
                TicketType::Elder => 'E',
                TicketType::College => 'P',
            })
        }),
{
    let n: nat = if val <= 10 {
        val
    } else {
        10
    };
    assert(ticket_amount(ticket_type, val as int).drop_last() =~= decimal(n));
    number_reads_decimal(n, 10);
}

/// The fields hold the name with a value that is read as the number.
pub open spec fn holds_number(fields: Seq<(Seq<char>, Seq<char>)>, name: Seq<char>, n: nat) -> bool {
    exists|i: int| 0 <= i < fields.len() && (#[trigger] fields[i]).0 == name && number(
        fields[i].1,
        usize::MAX as nat,
    ) == Some(n)
}

proof fn lemma_holds_number(fields: Seq<(Seq<char>, Seq<char>)>, name: Seq<char>, n: nat, i: int)
    requires
        0 <= i < fields.len(),
        fields[i] == (name, decimal(n)),
        n <= usize::MAX,
    ensures
        holds_number(fields, name, n),
{
    number_reads_decimal(n, usize::MAX as nat);
    assert(fields[i].0 == name);
}

/// What is set in the form is sent: every field under its name, with its value.
/// What has no value is not sent, and nothing else is.
pub proof fn form_is_sent(form: BookingPayload)
    ensures
        ({
            let f = form.fields();
            &&& holds_number(f, "selectStartStation"@, form.start_station as nat)
            &&& holds_number(f, "selectDestinationStation"@, form.dest_station as nat)
            &&& f.contains(("bookingMethod"@, form.search_by@))
            &&& holds_number(f, "tripCon:typesoftrip"@, form.types_of_trip as nat)
            &&& f.contains(("toTimeInputField"@, form.outbound_date@))
            &&& f.contains(("toTimeTable"@, form.outbound_time@))
            &&& f.contains(("homeCaptcha:securityCode"@, form.security_code@))
            &&& holds_number(f, "seatCon:seatRadioGroup"@, form.seat_prefer as nat)
            &&& f.contains(("BookingS1Form:hf:0"@, form.form_mark@))
            &&& holds_number(f, "trainCon:trainRadioGroup"@, form.class_type as nat)
            &&& form.inbound_date matches Some(v) ==> f.contains(("backTimeInputField"@, v@))
            &&& form.inbound_time matches Some(v) ==> f.contains(("backTimeTable"@, v@))
            &&& form.to_train_id matches Some(n) ==> holds_number(
                f,
                "toTrainIDInputField"@,
                n as nat,
            )
            &&& form.back_train_id matches Some(n) ==> holds_number(
                f,
                "backTrainIDInputField"@,
                n as nat,
            )
            &&& f.contains(("ticketPanel:rows:0:ticketAmount"@, form.adult_ticket_num@))
            &&& f.contains(("ticketPanel:rows:1:ticketAmount"@, form.child_ticket_num@))
            &&& f.contains(("ticketPanel:rows:2:ticketAmount"@, form.disabled_ticket_num@))
            &&& f.contains(("ticketPanel:rows:3:ticketAmount"@, form.elder_ticket_num@))
            &&& f.contains(("ticketPanel:rows:4:ticketAmount"@, form.college_ticket_num@))
            &&& f.len() == 15 + count(form.inbound_date is Some) + count(
                form.inbound_time is Some,
            ) + count(form.to_train_id is Some) + count(form.back_train_id is Some)
        }),
{
    let f = form.fields();
    let a = count(form.inbound_date is Some);
    let b = a + count(form.inbound_time is Some);
    let c = b + count(form.to_train_id is Some);
    let d = c + count(form.back_train_id is Some);
    lemma_holds_number(f, "selectStartStation"@, form.start_station as nat, 0);
    lemma_holds_number(f, "selectDestinationStation"@, form.dest_station as nat, 1);
    lemma_holds_number(f, "tripCon:typesoftrip"@, form.types_of_trip as nat, 3);
    lemma_holds_number(f, "seatCon:seatRadioGroup"@, form.seat_prefer as nat, 7);
    lemma_holds_number(f, "trainCon:trainRadioGroup"@, form.class_type as nat, 9);
    assert(f[2] == ("bookingMethod"@, form.search_by@));
    assert(f[4] == ("toTimeInputField"@, form.outbound_date@));
    assert(f[5] == ("toTimeTable"@, form.outbound_time@));
    assert(f[6] == ("homeCaptcha:securityCode"@, form.security_code@));
    assert(f[8] == ("BookingS1Form:hf:0"@, form.form_mark@));
    if let Some(v) = form.inbound_date {
        assert(f[10] == ("backTimeInputField"@, v@));
    }
    if let Some(v) = form.inbound_time {
        assert(f[10 + a] == ("backTimeTable"@, v@));
    }
    if let Some(n) = form.to_train_id {
        lemma_holds_number(f, "toTrainIDInputField"@, n as nat, 10 + b);
    }
    if let Some(n) = form.back_train_id {
        lemma_holds_number(f, "backTrainIDInputField"@, n as nat, 10 + c);
    }
    assert(f[10 + d] == ("ticketPanel:rows:0:ticketAmount"@, form.adult_ticket_num@));
    assert(f[11 + d] == ("ticketPanel:rows:1:ticketAmount"@, form.child_ticket_num@));
    assert(f[12 + d] == ("ticketPanel:rows:2:ticketAmount"@, form.disabled_ticket_num@));
    assert(f[13 + d] == ("ticketPanel:rows:3:ticketAmount"@, form.elder_ticket_num@));
    assert(f[14 + d] == ("ticketPanel:rows:4:ticketAmount"@, form.college_ticket_num@));
}

/// 1 where the condition holds, and 0 where it does not.
pub open spec fn count(condition: bool) -> int {
    if condition {
        1
    } else {
        0
    }
}

/// The request books what is fixed, on the terms that the page offers, with the
/// code that was typed: from Banqiao to Taichung, two adults and no one else,
/// from half past seven, one way or as the page has it.
pub proof fn fixed_booking_is_sent(
    search_by: Seq<char>,
    types_of_trip: nat,
    start_date: Seq<char>,
    end_date: Seq<char>,
    code: Seq<char>,
)
    requires
        types_of_trip <= usize::MAX,
    ensures
        ({
            let f = fixed_fields(search_by, types_of_trip, start_date, end_date, code);
            &&& f.len() == 15
            &&& holds_number(f, "selectStartStation"@, 3)
            &&& holds_number(f, "selectDestinationStation"@, 7)
            &&& f.contains(("bookingMethod"@, search_by))
            &&& holds_number(f, "tripCon:typesoftrip"@, types_of_trip)
            &&& f.contains(
                ("toTimeInputField"@, date_in_range(start_date, end_date, "2026/09/25"@)),
            )
            &&& f.contains(("toTimeTable"@, clock_name(450)))
            &&& f.contains(("homeCaptcha:securityCode"@, code))
            &&& holds_number(f, "seatCon:seatRadioGroup"@, 0)
            &&& f.contains(("BookingS1Form:hf:0"@, ""@))
            &&& holds_number(f, "trainCon:trainRadioGroup"@, 0)
            &&& f.contains(("ticketPanel:rows:0:ticketAmount"@, seq!['2', 'F']))
            &&& f.contains(("ticketPanel:rows:1:ticketAmount"@, seq!['0', 'H']))
            &&& f.contains(("ticketPanel:rows:2:ticketAmount"@, seq!['0', 'W']))
            &&& f.contains(("ticketPanel:rows:3:ticketAmount"@, seq!['0', 'E']))
            &&& f.contains(("ticketPanel:rows:4:ticketAmount"@, seq!['0', 'P']))
        }),
{
    let f = fixed_fields(search_by, types_of_trip, start_date, end_date, code);
    reveal_strlit("0H");
    reveal_strlit("0W");
    reveal_strlit("0E");
    reveal_strlit("0P");
    lemma_holds_number(f, "selectStartStation"@, 3, 0);
    lemma_holds_number(f, "selectDestinationStation"@, 7, 1);
    lemma_holds_number(f, "tripCon:typesoftrip"@, types_of_trip, 3);
    lemma_holds_number(f, "seatCon:seatRadioGroup"@, 0, 7);
    lemma_holds_number(f, "trainCon:trainRadioGroup"@, 0, 9);
    times_are_chosen_by_number(6);
    assert(f[2] == ("bookingMethod"@, search_by));
    assert(f[4] == ("toTimeInputField"@, date_in_range(start_date, end_date, "2026/09/25"@)));
    assert(f[5] == ("toTimeTable"@, clock_name(450)));
    assert(f[6] == ("homeCaptcha:securityCode"@, code));
    assert(f[8] == ("BookingS1Form:hf:0"@, ""@));
    assert(ticket_amount(TicketType::Adult, 2) =~= seq!['2', 'F']);
    assert("0H"@ =~= seq!['0', 'H']);
    assert("0W"@ =~= seq!['0', 'W']);
    assert("0E"@ =~= seq!['0', 'E']);
    assert("0P"@ =~= seq!['0', 'P']);
    assert(f[10] == ("ticketPanel:rows:0:ticketAmount"@, seq!['2', 'F']));
    assert(f[11] == ("ticketPanel:rows:1:ticketAmount"@, seq!['0', 'H']));
    assert(f[12] == ("ticketPanel:rows:2:ticketAmount"@, seq!['0', 'W']));
    assert(f[13] == ("ticketPanel:rows:3:ticketAmount"@, seq!['0', 'E']));
    assert(f[14] == ("ticketPanel:rows:4:ticketAmount"@, seq!['0', 'P']));
}

/// The first checked button decides, however many unchecked ones stand before
/// it and whatever follows; without one there is nothing.
pub proof fn first_checked_button_decides(
    before: Seq<ElementView>,
    checked: Seq<char>,
    value: Option<Seq<char>>,
    texts: Seq<Seq<char>>,
    after: Seq<ElementView>,
)
    requires
        forall|i: int|
            0 <= i < before.len() ==> (#[trigger] before[i]).0.len() == 2 && before[i].0[0] is None,
    ensures
        checked_value(before + seq![(seq![Some(checked), value], texts)] + after) == value,
        checked_value(before) is None,
    decreases before.len(),
{
    let e: ElementView = (seq![Some(checked), value], texts);
    let all = before + seq![e] + after;
    if before.len() == 0 {
        assert(all[0] == e);
    } else {
        let tail = before.drop_first();
        assert forall|i: int| 0 <= i < tail.len() implies (#[trigger] tail[i]).0.len() == 2
            && tail[i].0[0] is None by {
            assert(tail[i] == before[i + 1]);
        }
        first_checked_button_decides(tail, checked, value, texts, after);
        assert(before[0].0[0] is None);
        assert(all[0] == before[0]);
        assert(all.drop_first() =~= tail + seq![e] + after);
    }
}

/// The first cookie named `JSESSIONID` is the session, however many others
/// stand before it and whatever follows; without one there is none.
pub proof fn session_cookie_is_found(
    before: Seq<(Seq<char>, Seq<char>)>,
    session: Seq<char>,
    after: Seq<(Seq<char>, Seq<char>)>,
)
    requires
        forall|i: int| 0 <= i < before.len() ==> (#[trigger] before[i]).0 != "JSESSIONID"@,
    ensures
        session_cookie(before + seq![("JSESSIONID"@, session)] + after) == Some(session),
        session_cookie(before) is None,
    decreases before.len(),
{
    let all = before + seq![("JSESSIONID"@, session)] + after;
    if before.len() == 0 {
        assert(all[0] == ("JSESSIONID"@, session));
    } else {
        let tail = before.drop_first();
        assert forall|i: int| 0 <= i < tail.len() implies (#[trigger] tail[i]).0
            != "JSESSIONID"@ by {
            assert(tail[i] == before[i + 1]);
        }
        session_cookie_is_found(tail, session, after);
        assert(all[0] == before[0]);
        assert(all.drop_first() =~= tail + seq![("JSESSIONID"@, session)] + after);
    }
}

/// What the page offers is read off the first element: the number of the
/// selected option, the dates, and the address of the image on the site.
pub proof fn offer_is_read(
    n: nat,
    width: nat,
    first: Seq<char>,
    last: Seq<char>,
    src: Seq<char>,
    texts: Seq<Seq<char>>,
    more: Seq<ElementView>,
    other_lists: Seq<Seq<ElementView>>,
    others: Seq<Seq<Seq<ElementView>>>,
)
    requires
        n <= 65535,
    ensures
        first_option(
            seq![
                seq![seq![(seq![Some(decimal_padded(n, width))], texts)] + more] + other_lists,
            ] + others,
        ) == (if n <= 255 {
            Some(n)
        } else {
            None
        }),
        offered_dates(seq![(seq![Some(last), Some(first)], texts)] + more) == Some((first, last)),
        image_url(seq![(seq![Some(src)], texts)] + more) == Some(
            "https://irs.thsrc.com.tw"@ + src,
        ),
{
    let e: ElementView = (seq![Some(decimal_padded(n, width))], texts);
    let lists = seq![seq![seq![e] + more] + other_lists] + others;
    assert(lists[0][0][0] == e);
    number_reads_decimal_padded(n, width, 65535);
    if n <= 255 {
        number_reads_decimal_padded(n, width, 255);
    }
    let dates: ElementView = (seq![Some(last), Some(first)], texts);
    assert((seq![dates] + more)[0] == dates);
    let image: ElementView = (seq![Some(src)], texts);
    assert((seq![image] + more)[0] == image);
}

/// The address that takes the form is one address but for the session in it.
pub proof fn session_is_in_the_address(session: Seq<char>, other: Seq<char>)
    ensures
        "https://irs.thsrc.com.tw/IMINT/;jsessionid="@.is_prefix_of(form_url(session)),
        ({
            let k = "https://irs.thsrc.com.tw/IMINT/;jsessionid="@.len() as int;
            let url = form_url(session);
            &&& url.subrange(k, k + session.len()) == session
            &&& url.skip(k + session.len()) == form_url(other).skip(k + other.len())
        }),
{
    let front = "https://irs.thsrc.com.tw/IMINT/;jsessionid="@;
    let end = "?wicket:interface=:0:BookingS1Form::IFormSubmitListener"@;
    let k = front.len() as int;
    assert(form_url(session).subrange(0, k) =~= front);
    assert(form_url(session).subrange(k, k + session.len()) =~= session);
    assert(form_url(session).skip(k + session.len()) =~= end);
    assert(form_url(other).skip(k + other.len()) =~= end);
}

/// What the page offers is read only where it is there: the first element has
/// the attributes, and the option is a number.
pub proof fn missing_offers_are_not_made_up(
    lists: Seq<Seq<Seq<ElementView>>>,
    fields: Seq<ElementView>,
)
    ensures
        first_option(lists) matches Some(n) ==> {
            &&& lists.len() > 0 && lists[0].len() > 0 && lists[0][0].len() > 0
            &&& lists[0][0][0].0.len() > 0
            &&& lists[0][0][0].0[0] matches Some(value) && number(value, 255) == Some(n)
        },
        offered_dates(fields) matches Some((first, last)) ==> {
            &&& fields.len() > 0 && fields[0].0.len() > 1
            &&& fields[0].0[0] == Some(last)
            &&& fields[0].0[1] == Some(first)
        },
        image_url(fields) is Some ==> fields.len() > 0 && fields[0].0.len() > 0
            && fields[0].0[0] is Some,
{
}

} // verus!
