//! The last page of the booking: who travels, and the form that closes it.
use vstd::prelude::*;
use vstd::string::*;
use crate::form::{add_field, encode_form, encoded_form, encoded_pair, looked_up, FormRequest};
use crate::number::{
    decimal, is_digit, lemma_decimal_digits, number, number_reads_decimal, write_decimal,
};
use crate::page::{
    attr_of_first, find, find_texts, first_attr, first_texts, first_texts_are_taken_in_order, found,
    texts_of, Element, ElementView,
};
use crate::text::{
    all_space, cut, is_space, joined, lemma_cut_front, lemma_joined_both, lemma_pieces_of_joined,
    pieces, trim, trimmed, trimming_is_idempotent, trimming_takes_white_space,
};

verus! {

pub const CONFIRM_TICKET_URL: &'static str =
    "https://irs.thsrc.com.tw/IMINT/?wicket:interface=:2:BookingS3Form::IFormSubmitListener";

/// The form of the last page.
#[derive(Debug)]
pub struct ConfirmTicketPayload {
    pub personal_id: String,
    pub phone_num: String,
    /// Which kind of member the person is, if any.
    pub member_radio: String,
    pub form_mark: String,
    /// 0: national ID, 1: passport
    pub id_input_radio: u8,
    pub diff_over: u8,
    pub email: String,
    pub agree: String,
    pub go_back_m: String,
    pub back_home: String,
    pub tgo_error: u8,
}

pub fn default_diff_over() -> (r: u8)
    ensures
        r == 1,
{
    1
}

pub fn default_agree() -> (r: String)
    ensures
        r@ == "on"@,
{
    "on".to_string()
}

impl Default for ConfirmTicketPayload {
    fn default() -> (r: Self)
        ensures
            r.personal_id@ == ""@,
            r.phone_num@ == ""@,
            r.member_radio@ == "0"@,
            r.form_mark@ == ""@,
            r.id_input_radio == 0,
            r.diff_over == 1,
            r.email@ == ""@,
            r.agree@ == "on"@,
            r.go_back_m@ == ""@,
            r.back_home@ == ""@,
            r.tgo_error == 1,
    {
        ConfirmTicketPayload {
            personal_id: "".to_string(),
            phone_num: "".to_string(),
            member_radio: "0".to_string(),
            form_mark: "".to_string(),
            id_input_radio: 0,
            diff_over: default_diff_over(),
            email: "".to_string(),
            agree: default_agree(),
            go_back_m: "".to_string(),
            back_home: "".to_string(),
            tgo_error: 1,
        }
    }
}

/// The personal ID that was given, without white space around it: empty where
/// none was.
pub open spec fn given_id(personal_id: Option<Seq<char>>) -> Seq<char> {
    match personal_id {
        Some(id) => trimmed(id),
        None => seq![],
    }
}

/// What is said where no personal ID was given.
pub const PERSONAL_ID_REQUIRED: &'static str =
    "THSR_PERSONAL_ID is required. Add it to Railway Variables.";

/// Whether a personal ID was given that is more than white space.
pub fn has_personal_id(personal_id: &Option<String>) -> (r: bool)
    ensures
        r == (given_id(personal_id.deep_view()).len() > 0),
{
    match personal_id {
        Some(id) => !trim(id.as_str()).is_empty(),
        None => false,
    }
}

impl ConfirmTicketPayload {
    /// Takes the personal ID, and gives back what was taken.
    pub fn input_personal_id(&mut self, personal_id: &Option<String>) -> (r: String)
        requires
            given_id(personal_id.deep_view()).len() > 0,
        ensures
            r@ == given_id(personal_id.deep_view()),
            final(self).personal_id@ == r@,
            *final(self) == (ConfirmTicketPayload {
                personal_id: final(self).personal_id,
                ..*old(self)
            }),
    {
        let id: String = match personal_id {
            Some(id) => trim(id.as_str()).to_string(),
            None => String::new(),
        };
        self.personal_id = id.clone();
        id
    }

    /// The form as the site expects it.
    pub open spec fn fields(self) -> Seq<(Seq<char>, Seq<char>)> {
        seq![
            ("dummyId"@, self.personal_id@),
            ("dummyPhone"@, self.phone_num@),
            (
                "TicketMemberSystemInputPanel:TakerMemberSystemDataView:memberSystemRadioGroup"@,
                self.member_radio@,
            ),
            ("BookingS3FormSP:hf:0"@, self.form_mark@),
            ("idInputRadio"@, decimal(self.id_input_radio as nat)),
            ("diffOver"@, decimal(self.diff_over as nat)),
            ("email"@, self.email@),
            ("agree"@, self.agree@),
            ("isGoBackM"@, self.go_back_m@),
            ("backHome"@, self.back_home@),
            ("TgoError"@, decimal(self.tgo_error as nat)),
        ]
    }

    /// The fields of the form under the names that the site gives them.
    pub fn form_fields(&self) -> (r: Vec<(String, String)>)
        ensures
            r.deep_view() == self.fields(),
    {
        let mut f: Vec<(String, String)> = Vec::new();
        assert(f.deep_view() =~= seq![]);
        add_field(&mut f, "dummyId", self.personal_id.as_str());
        add_field(&mut f, "dummyPhone", self.phone_num.as_str());
        add_field(
            &mut f,
            "TicketMemberSystemInputPanel:TakerMemberSystemDataView:memberSystemRadioGroup",
            self.member_radio.as_str(),
        );
        add_field(&mut f, "BookingS3FormSP:hf:0", self.form_mark.as_str());
        add_field(&mut f, "idInputRadio", write_decimal(self.id_input_radio as u128).as_str());
        add_field(&mut f, "diffOver", write_decimal(self.diff_over as u128).as_str());
        add_field(&mut f, "email", self.email.as_str());
        add_field(&mut f, "agree", self.agree.as_str());
        add_field(&mut f, "isGoBackM", self.go_back_m.as_str());
        add_field(&mut f, "backHome", self.back_home.as_str());
        add_field(&mut f, "TgoError", write_decimal(self.tgo_error as u128).as_str());
        assert(f.deep_view() =~= self.fields());
        f
    }

    /// The encoded form.
    pub fn encode(&self) -> (r: String)
        ensures
            r@ == encoded_form(self.fields()),
    {
        encode_form(&self.form_fields())
    }
}

/// The fields that name a member.
pub open spec fn membership_fields(id: Seq<char>) -> Seq<(Seq<char>, Seq<char>)> {
    seq![
        (
            "TicketMemberSystemInputPanel:TakerMemberSystemDataView:memberSystemRadioGroup:memberShipNumber"@,
            id,
        ),
        (
            "TicketMemberSystemInputPanel:TakerMemberSystemDataView:memberSystemRadioGroup:memberSystemShipCheckBox"@,
            "on"@,
        ),
    ]
}

/// The radio button that is chosen.
pub open spec fn membership_selector(to_use_membership: bool) -> Seq<char> {
    if to_use_membership {
        "#memberSystemRadio1"@
    } else {
        "#memberSystemRadio3"@
    }
}

/// The value of the radio button, and the encoded fields that go with a
/// membership.
pub open spec fn membership_choice(
    buttons: Seq<ElementView>,
    id: Seq<char>,
    to_use_membership: bool,
) -> Option<(Seq<char>, Option<Seq<char>>)> {
    match first_attr(buttons, 0) {
        Some(value) => Some(
            (
                value,
                if to_use_membership {
                    Some(encoded_form(membership_fields(id)))
                } else {
                    None
                },
            ),
        ),
        None => None,
    }
}

/// The value of the radio button among the elements, and the encoded fields
/// that go with a membership.
pub fn membership_in(buttons: &Vec<Element>, membership_id: &String, to_use_membership: bool) -> (r:
    Option<(String, Option<String>)>)
    ensures
        r.deep_view() == membership_choice(
            buttons.deep_view(),
            membership_id@,
            to_use_membership,
        ),
{
    match attr_of_first(buttons, 0) {
        Some(value) => {
            if to_use_membership {
                let mut f: Vec<(String, String)> = Vec::new();
                assert(f.deep_view() =~= seq![]);
                add_field(
                    &mut f,
                    "TicketMemberSystemInputPanel:TakerMemberSystemDataView:memberSystemRadioGroup:memberShipNumber",
                    membership_id.as_str(),
                );
                add_field(
                    &mut f,
                    "TicketMemberSystemInputPanel:TakerMemberSystemDataView:memberSystemRadioGroup:memberSystemShipCheckBox",
                    "on",
                );
                assert(f.deep_view() =~= membership_fields(membership_id@));
                Some((value, Some(encode_form(&f))))
            } else {
                Some((value, None))
            }
        },
        None => None,
    }
}

/// The value of the radio button for members or for others, and the encoded
/// fields that go with a membership; nothing where the page has no such button.
pub fn process_membership(page: &str, membership_id: &String, to_use_membership: bool) -> (r:
    Option<(String, Option<String>)>)
    ensures
        r.deep_view() == membership_choice(
            found(page@, membership_selector(to_use_membership), seq!["value"@]),
            membership_id@,
            to_use_membership,
        ),
{
    let selector: &str = if to_use_membership {
        "#memberSystemRadio1"
    } else {
        "#memberSystemRadio3"
    };
    let names: [&str; 1] = ["value"];
    assert(names.deep_view() =~= seq!["value"@]);
    proof {
        reveal_strlit("#memberSystemRadio1");
        reveal_strlit("#memberSystemRadio3");
    }
    membership_in(&find(page, selector, &names), membership_id, to_use_membership)
}

/// The name of one of the fields of the passenger at place `i`.
pub open spec fn passenger_field(i: nat, name: Seq<char>) -> Seq<char> {
    "TicketPassengerInfoInputPanel:passengerDataView:"@ + decimal(i) + ":passengerDataView2:"@ + name
}

/// The fields of the passenger at place `i`: identified by a national ID.
pub open spec fn passenger_fields(i: nat, ticket_type: Seq<char>, id: Seq<char>) -> Seq<
    (Seq<char>, Seq<char>),
> {
    seq![
        (passenger_field(i, "passengerDataLastName"@), ""@),
        (passenger_field(i, "passengerDataFirstName"@), ""@),
        (passenger_field(i, "passengerDataTypeName"@), ticket_type),
        (passenger_field(i, "passengerDataIdNumber"@), id),
        (passenger_field(i, "passengerDataInputChoice"@), "0"@),
    ]
}

/// The fields of all passengers, in their order.
pub open spec fn all_passenger_fields(ticket_type: Seq<char>, ids: Seq<Seq<char>>) -> Seq<
    (Seq<char>, Seq<char>),
>
    decreases ids.len(),
{
    if ids.len() == 0 {
        seq![]
    } else {
        all_passenger_fields(ticket_type, ids.drop_last()) + passenger_fields(
            (ids.len() - 1) as nat,
            ticket_type,
            ids.last(),
        )
    }
}

fn write_passenger_field(i: usize, name: &str) -> (r: String)
    ensures
        r@ == passenger_field(i as nat, name@),
{
    let mut s: String = "TicketPassengerInfoInputPanel:passengerDataView:".to_string();
    s.append(write_decimal(i as u128).as_str());
    s.append(":passengerDataView2:");
    s.append(name);
    s
}

fn add_passenger(fields: &mut Vec<(String, String)>, i: usize, ticket_type: &str, id: &str)
    ensures
        final(fields).deep_view() == old(fields).deep_view() + passenger_fields(
            i as nat,
            ticket_type@,
            id@,
        ),
{
    add_field(fields, write_passenger_field(i, "passengerDataLastName").as_str(), "");
    add_field(fields, write_passenger_field(i, "passengerDataFirstName").as_str(), "");
    add_field(fields, write_passenger_field(i, "passengerDataTypeName").as_str(), ticket_type);
    add_field(fields, write_passenger_field(i, "passengerDataIdNumber").as_str(), id);
    add_field(fields, write_passenger_field(i, "passengerDataInputChoice").as_str(), "0");
    assert(fields.deep_view() =~= old(fields).deep_view() + passenger_fields(
        i as nat,
        ticket_type@,
        id@,
    ));
}

/// What is asked of the passenger with a number, counted from 1.
pub open spec fn prompt_text(passenger: nat) -> Seq<char> {
    "Input passenger's ID for passenger "@ + decimal(passenger)
        + "\n(ID change is not allowed after input!):"@
}

/// The IDs that are known after a line was typed: it names the next passenger,
/// unless it is white space or all of them are known.
pub open spec fn with_line(ids: Seq<Seq<char>>, passengers: nat, line: Seq<char>) -> Seq<
    Seq<char>,
> {
    if trimmed(line).len() > 0 && ids.len() < passengers {
        ids.push(trimmed(line))
    } else {
        ids
    }
}

/// The passengers of an early bird ticket: each has to be named by an ID.
pub struct EarlyBird {
    passengers: usize,
    ticket_type: String,
    ids: Vec<String>,
}

impl EarlyBird {
    /// How many passengers there are.
    pub closed spec fn passengers(self) -> nat {
        self.passengers as nat
    }

    /// The type of ticket that the site has for them.
    pub closed spec fn ticket_type(self) -> Seq<char> {
        self.ticket_type@
    }

    /// The IDs that are known, those of the first passengers.
    pub closed spec fn ids(self) -> Seq<Seq<char>> {
        self.ids.deep_view()
    }

    /// The first passenger is known, no more IDs are known than there are
    /// passengers, and those that were entered are not empty and have no white
    /// space around them.
    pub open spec fn wf(self) -> bool {
        &&& 1 <= self.ids().len() <= self.passengers()
        &&& forall|i: int|
            1 <= i < self.ids().len() ==> {
                &&& (#[trigger] self.ids()[i]).len() > 0
                &&& trimmed(self.ids()[i]) == self.ids()[i]
            }
    }

    /// The ID of every passenger is known.
    pub open spec fn all_known(self) -> bool {
        self.wf() && self.ids().len() == self.passengers()
    }

    /// The fields of the passengers whose ID is known.
    pub open spec fn fields(self) -> Seq<(Seq<char>, Seq<char>)> {
        all_passenger_fields(self.ticket_type(), self.ids())
    }

    /// The passengers of a ticket, of whom the first is known.
    pub fn new(passengers: usize, ticket_type: String, personal_id: &str) -> (r: Self)
        requires
            passengers >= 1,
        ensures
            r.wf(),
            r.passengers() == passengers,
            r.ticket_type() == ticket_type@,
            r.ids() == seq![personal_id@],
    {
        let mut ids: Vec<String> = Vec::new();
        ids.push(personal_id.to_string());
        let r = EarlyBird { passengers, ticket_type, ids };
        assert(r.ids() =~= seq![personal_id@]);
        r
    }

    /// What is asked next, while there is a passenger whose ID is not known.
    pub fn prompt(&self) -> (r: Option<String>)
        requires
            self.wf(),
        ensures
            match r {
                Some(text) => {
                    &&& self.ids().len() < self.passengers()
                    &&& text@ == prompt_text(self.ids().len() + 1)
                },
                None => self.ids().len() == self.passengers(),
            },
    {
        if self.ids.len() < self.passengers {
            let mut s: String = "Input passenger's ID for passenger ".to_string();
            s.append(write_decimal(self.ids.len() as u128 + 1).as_str());
            s.append("\n(ID change is not allowed after input!):");
            Some(s)
        } else {
            None
        }
    }

    /// Takes a line as the ID of the next passenger, without the white space
    /// around it. A line of white space is not taken, and none is where all IDs
    /// are known.
    pub fn enter(&mut self, line: &str) -> (r: bool)
        requires
            old(self).wf(),
        ensures
            final(self).wf(),
            final(self).passengers() == old(self).passengers(),
            final(self).ticket_type() == old(self).ticket_type(),
            r == (trimmed(line@).len() > 0 && old(self).ids().len() < old(self).passengers()),
            final(self).ids() == with_line(old(self).ids(), old(self).passengers(), line@),
    {
        let ghost before = self.ids();
        let id: &str = trim(line);
        if id.is_empty() || self.ids.len() >= self.passengers {
            return false;
        }
        self.ids.push(id.to_string());
        assert(self.ids() =~= before.push(trimmed(line@)));
        proof {
            trimming_is_idempotent(line@);
        }
        true
    }

    /// The fields of the passengers under the names that the site gives them.
    pub fn form_fields(&self) -> (r: Vec<(String, String)>)
        ensures
            r.deep_view() == self.fields(),
            r@.len() == 5 * self.ids().len(),
    {
        let mut f: Vec<(String, String)> = Vec::new();
        let mut i: usize = 0;
        let ghost all = self.ids();
        proof {
            lemma_passenger_count(self.ticket_type(), all);
        }
        assert(f.deep_view() =~= seq![]);
        while i < self.ids.len()
            invariant
                all == self.ids(),
                i <= all.len(),
                all.len() == self.ids.len(),
                f.deep_view() == all_passenger_fields(
                    self.ticket_type(),
                    all.subrange(0, i as int),
                ),
            decreases all.len() - i,
        {
            proof {
                let next = all.subrange(0, i + 1);
                assert(next.drop_last() =~= all.subrange(0, i as int));
                assert(next.last() == self.ids@[i as int]@);
            }
            add_passenger(&mut f, i, self.ticket_type.as_str(), self.ids[i].as_str());
            i = i + 1;
        }
        assert(all.subrange(0, all.len() as int) =~= all);
        f
    }
}

/// Whether the page asks for the passengers of an early bird ticket.
pub enum Passengers {
    /// It does not.
    NotAsked,
    /// It does.
    Asked(EarlyBird),
    /// It does, but does not say for which type of ticket.
    Unreadable,
}

/// How many passengers the page asks for: one for each mark that has a text.
pub open spec fn asked_passengers(marks: Seq<ElementView>) -> nat {
    first_texts(marks).len()
}

/// The passengers that the page asks for, from its early bird marks and its
/// fields for the type of ticket: a passenger for each mark that has a text.
pub fn passengers_in(marks: &Vec<Element>, types: &Vec<Element>, personal_id: &str) -> (r:
    Passengers)
    ensures
        ({
            let count = asked_passengers(marks.deep_view());
            if count == 0 {
                r is NotAsked
            } else {
                match first_attr(types.deep_view(), 0) {
                    Some(ticket_type) => {
                        &&& r matches Passengers::Asked(early_bird)
                        &&& early_bird.wf()
                        &&& early_bird.passengers() == count
                        &&& early_bird.ticket_type() == ticket_type
                        &&& early_bird.ids() == seq![personal_id@]
                    },
                    None => r is Unreadable,
                }
            }
        }),
{
    let count: usize = texts_of(marks).len();
    if count == 0 {
        return Passengers::NotAsked;
    }
    match attr_of_first(types, 0) {
        Some(ticket_type) => Passengers::Asked(EarlyBird::new(count, ticket_type, personal_id)),
        None => Passengers::Unreadable,
    }
}

/// The passengers that the page asks for.
pub fn process_early_bird(page: &str, personal_id: &str) -> (r: Passengers)
    ensures
        ({
            let count = asked_passengers(found(page@, ".superEarlyBird"@, seq![]));
            let types = found(
                page@,
                "input[name='TicketPassengerInfoInputPanel:passengerDataView:0:passengerDataView2:passengerDataTypeName']"@,
                seq!["value"@],
            );
            if count == 0 {
                r is NotAsked
            } else {
                match first_attr(types, 0) {
                    Some(ticket_type) => {
                        &&& r matches Passengers::Asked(early_bird)
                        &&& early_bird.wf()
                        &&& early_bird.passengers() == count
                        &&& early_bird.ticket_type() == ticket_type
                        &&& early_bird.ids() == seq![personal_id@]
                    },
                    None => r is Unreadable,
                }
            }
        }),
{
    let names: [&str; 1] = ["value"];
    assert(names.deep_view() =~= seq!["value"@]);
    proof {
        reveal_strlit(".superEarlyBird");
        reveal_strlit("input[name='TicketPassengerInfoInputPanel:passengerDataView:0:passengerDataView2:passengerDataTypeName']");
    }
    let marks: Vec<Element> = find_texts(page, ".superEarlyBird");
    let types: Vec<Element> = find(
        page,
        "input[name='TicketPassengerInfoInputPanel:passengerDataView:0:passengerDataView2:passengerDataTypeName']",
        &names,
    );
    passengers_in(&marks, &types, personal_id)
}

/// The form of the last page, and the encoded fields of a membership.
pub struct Ticket {
    pub payload: ConfirmTicketPayload,
    pub membership: Option<String>,
}

/// The fields of the last page for a person and a radio button.
pub open spec fn ticket_fields(id: Seq<char>, member_radio: Seq<char>) -> Seq<
    (Seq<char>, Seq<char>),
> {
    seq![
        ("dummyId"@, id),
        ("dummyPhone"@, ""@),
        (
            "TicketMemberSystemInputPanel:TakerMemberSystemDataView:memberSystemRadioGroup"@,
            member_radio,
        ),
        ("BookingS3FormSP:hf:0"@, ""@),
        ("idInputRadio"@, decimal(0)),
        ("diffOver"@, decimal(1)),
        ("email"@, ""@),
        ("agree"@, "on"@),
        ("isGoBackM"@, ""@),
        ("backHome"@, ""@),
        ("TgoError"@, decimal(1)),
    ]
}

/// The form for a person, with the choice that was made of a membership.
pub fn ticket_for(personal_id: &Option<String>, choice: (String, Option<String>)) -> (r: Ticket)
    requires
        given_id(personal_id.deep_view()).len() > 0,
    ensures
        r.payload.fields() == ticket_fields(given_id(personal_id.deep_view()), choice.0@),
        r.payload.personal_id@ == given_id(personal_id.deep_view()),
        r.membership == choice.1,
{
    let mut payload: ConfirmTicketPayload = ConfirmTicketPayload::default();
    let _ = payload.input_personal_id(personal_id);
    payload.member_radio = choice.0;
    Ticket { payload, membership: choice.1 }
}

/// The form for a person without a membership; nothing where the page has no
/// button for that.
pub fn fill_ticket(page: &str, personal_id: &Option<String>) -> (r: Option<Ticket>)
    requires
        given_id(personal_id.deep_view()).len() > 0,
    ensures
        match first_attr(found(page@, "#memberSystemRadio3"@, seq!["value"@]), 0) {
            Some(member_radio) => {
                &&& r matches Some(ticket)
                &&& ticket.payload.fields() == ticket_fields(
                    given_id(personal_id.deep_view()),
                    member_radio,
                )
                &&& ticket.payload.personal_id@ == given_id(personal_id.deep_view())
                &&& ticket.membership is None
            },
            None => r is None,
        },
{
    let id: String = match personal_id {
        Some(id) => trim(id.as_str()).to_string(),
        None => String::new(),
    };
    match process_membership(page, &id, false) {
        Some(choice) => Some(ticket_for(personal_id, choice)),
        None => None,
    }
}

/// The body of the last request: the form, the passengers of an early bird
/// ticket and the fields of a membership.
pub open spec fn ticket_body(
    form: Seq<(Seq<char>, Seq<char>)>,
    passengers: Option<Seq<(Seq<char>, Seq<char>)>>,
    membership: Option<Seq<char>>,
) -> Seq<char> {
    let body = match passengers {
        Some(fields) => encoded_form(form) + "&"@ + encoded_form(fields),
        None => encoded_form(form),
    };
    match membership {
        Some(fields) => body + "&"@ + fields,
        None => body,
    }
}

impl Ticket {
    /// The request that closes the booking, with the passengers where the page
    /// asks for them.
    pub fn request(&self, passengers: &Option<EarlyBird>) -> (r: FormRequest)
        requires
            passengers matches Some(early_bird) ==> early_bird.all_known(),
        ensures
            r.url@ == CONFIRM_TICKET_URL@,
            r.body@ == ticket_body(
                self.payload.fields(),
                match passengers {
                    Some(early_bird) => Some(early_bird.fields()),
                    None => None,
                },
                self.membership.deep_view(),
            ),
            passengers matches Some(early_bird) ==> early_bird.fields().len() == 5
                * early_bird.passengers(),
            self.membership is None ==> r.body@ == (match passengers {
                Some(early_bird) => encoded_form(self.payload.fields() + early_bird.fields()),
                None => encoded_form(self.payload.fields()),
            }),
    {
        let mut body: String = self.payload.encode();
        if let Some(early_bird) = passengers {
            proof {
                lemma_passenger_count(early_bird.ticket_type(), early_bird.ids());
                encoded_forms_join(self.payload.fields(), early_bird.fields());
            }
            body.append("&");
            body.append(encode_form(&early_bird.form_fields()).as_str());
        }
        if let Some(fields) = &self.membership {
            body.append("&");
            body.append(fields.as_str());
        }
        FormRequest { url: CONFIRM_TICKET_URL.to_string(), body }
    }
}

/// Two encoded forms with `&` between them are one form with the fields of
/// both.
pub proof fn encoded_forms_join(
    a: Seq<(Seq<char>, Seq<char>)>,
    b: Seq<(Seq<char>, Seq<char>)>,
)
    requires
        a.len() > 0,
        b.len() > 0,
    ensures
        encoded_form(a) + "&"@ + encoded_form(b) == encoded_form(a + b),
{
    let f = |p: (Seq<char>, Seq<char>)| encoded_pair(p);
    reveal_strlit("&");
    assert("&"@ =~= seq!['&']);
    assert((a + b).map_values(f) =~= a.map_values(f) + b.map_values(f));
    lemma_joined_both(a.map_values(f), b.map_values(f), seq!['&']);
}

/// The body of the last request is one form, with the fields of all its parts.
pub proof fn ticket_body_is_one_form(
    form: Seq<(Seq<char>, Seq<char>)>,
    passengers: Option<Seq<(Seq<char>, Seq<char>)>>,
    membership: Option<Seq<(Seq<char>, Seq<char>)>>,
)
    requires
        form.len() > 0,
        passengers matches Some(fields) ==> fields.len() > 0,
        membership matches Some(fields) ==> fields.len() > 0,
    ensures
        ({
            let encoded = match membership {
                Some(fields) => Some(encoded_form(fields)),
                None => None,
            };
            let with_passengers = match passengers {
                Some(fields) => form + fields,
                None => form,
            };
            let all = match membership {
                Some(fields) => with_passengers + fields,
                None => with_passengers,
            };
            ticket_body(form, passengers, encoded) == encoded_form(all)
        }),
{
    let with_passengers = match passengers {
        Some(fields) => {
            encoded_forms_join(form, fields);
            form + fields
        },
        None => form,
    };
    if let Some(fields) = membership {
        encoded_forms_join(with_passengers, fields);
    }
}

proof fn lemma_passenger_field_injective(i: nat, a: Seq<char>, j: nat, b: Seq<char>)
    requires
        passenger_field(i, a) == passenger_field(j, b),
    ensures
        i == j,
        a == b,
{
    let front = "TicketPassengerInfoInputPanel:passengerDataView:"@;
    let middle = ":passengerDataView2:"@;
    reveal_strlit(":passengerDataView2:");
    let rest = middle.drop_first();
    assert(middle =~= seq![':'] + rest);
    let x = decimal(i) + seq![':'] + (rest + a);
    let y = decimal(j) + seq![':'] + (rest + b);
    assert(passenger_field(i, a) =~= front + x);
    assert(passenger_field(j, b) =~= front + y);
    assert((front + x).skip(front.len() as int) =~= x);
    assert((front + y).skip(front.len() as int) =~= y);
    lemma_no_colon(i);
    lemma_no_colon(j);
    lemma_cut_front(decimal(i), ':', rest + a);
    lemma_cut_front(decimal(j), ':', rest + b);
    let larger = if i <= j {
        j
    } else {
        i
    };
    number_reads_decimal(i, larger);
    number_reads_decimal(j, larger);
    assert((rest + a).skip(rest.len() as int) =~= a);
    assert((rest + b).skip(rest.len() as int) =~= b);
}

proof fn lemma_no_colon(i: nat)
    ensures
        forall|k: int| 0 <= k < decimal(i).len() ==> #[trigger] decimal(i)[k] != ':',
{
    lemma_decimal_digits(i);
}

/// No two fields of a list have the same name.
pub open spec fn names_are_distinct(fields: Seq<(Seq<char>, Seq<char>)>) -> bool {
    forall|i: int, j: int|
        0 <= i < j < fields.len() ==> (#[trigger] fields[i]).0 != (#[trigger] fields[j]).0
}

spec fn field_suffix(k: int) -> Seq<char> {
    if k == 0 {
        "passengerDataLastName"@
    } else if k == 1 {
        "passengerDataFirstName"@
    } else if k == 2 {
        "passengerDataTypeName"@
    } else if k == 3 {
        "passengerDataIdNumber"@
    } else {
        "passengerDataInputChoice"@
    }
}

proof fn lemma_suffixes_differ(a: int, b: int)
    requires
        0 <= a < b < 5,
    ensures
        field_suffix(a) != field_suffix(b),
{
    reveal_strlit("passengerDataLastName");
    reveal_strlit("passengerDataFirstName");
    reveal_strlit("passengerDataTypeName");
    reveal_strlit("passengerDataIdNumber");
    reveal_strlit("passengerDataInputChoice");
    assert("passengerDataLastName"@[13] == 'L');
    assert("passengerDataFirstName"@[13] == 'F');
    assert("passengerDataTypeName"@[13] == 'T');
    assert("passengerDataIdNumber"@[14] == 'd');
    assert("passengerDataIdNumber"@[13] == 'I');
    assert("passengerDataInputChoice"@[14] == 'n');
}

proof fn lemma_passenger_field_at(ticket_type: Seq<char>, ids: Seq<Seq<char>>, k: int)
    requires
        0 <= k < 5 * ids.len(),
    ensures
        all_passenger_fields(ticket_type, ids).len() == 5 * ids.len(),
        all_passenger_fields(ticket_type, ids)[k] == passenger_fields(
            (k / 5) as nat,
            ticket_type,
            ids[k / 5],
        )[k % 5],
        all_passenger_fields(ticket_type, ids)[k].0 == passenger_field(
            (k / 5) as nat,
            field_suffix(k % 5),
        ),
    decreases ids.len(),
{
    let before = ids.drop_last();
    lemma_passenger_count(ticket_type, before);
    if k < 5 * before.len() {
        lemma_passenger_field_at(ticket_type, before, k);
        assert(before[k / 5] == ids[k / 5]);
    } else {
        assert(k / 5 == ids.len() - 1);
        assert(k % 5 == k - 5 * before.len());
    }
}

proof fn lemma_passenger_count(ticket_type: Seq<char>, ids: Seq<Seq<char>>)
    ensures
        all_passenger_fields(ticket_type, ids).len() == 5 * ids.len(),
    decreases ids.len(),
{
    if ids.len() > 0 {
        lemma_passenger_count(ticket_type, ids.drop_last());
    }
}

/// Among the fields of the passengers no name occurs twice: each says one
/// thing, whatever the order in which they are sent.
pub proof fn passenger_names_are_distinct(ticket_type: Seq<char>, ids: Seq<Seq<char>>)
    ensures
        names_are_distinct(all_passenger_fields(ticket_type, ids)),
{
    let fields = all_passenger_fields(ticket_type, ids);
    lemma_passenger_count(ticket_type, ids);
    assert forall|i: int, j: int| 0 <= i < j < fields.len() implies (#[trigger] fields[i]).0 != (
    #[trigger] fields[j]).0 by {
        lemma_passenger_field_at(ticket_type, ids, i);
        lemma_passenger_field_at(ticket_type, ids, j);
        if fields[i].0 == fields[j].0 {
            lemma_passenger_field_injective(
                (i / 5) as nat,
                field_suffix(i % 5),
                (j / 5) as nat,
                field_suffix(j % 5),
            );
            lemma_suffixes_differ(i % 5, j % 5);
        }
    }
}

proof fn lemma_looked_up(fields: Seq<(Seq<char>, Seq<char>)>, k: int)
    requires
        names_are_distinct(fields),
        0 <= k < fields.len(),
    ensures
        looked_up(fields, fields[k].0) == fields[k].1,
    decreases k,
{
    if k > 0 {
        assert(fields[0].0 != fields[k].0);
        let rest = fields.drop_first();
        assert forall|i: int, j: int| 0 <= i < j < rest.len() implies (#[trigger] rest[i]).0 != (
        #[trigger] rest[j]).0 by {
            assert(rest[i] == fields[i + 1]);
            assert(rest[j] == fields[j + 1]);
        }
        assert(rest[k - 1] == fields[k]);
        lemma_looked_up(rest, k - 1);
    }
}

/// Every passenger is sent under their place, with their ID and the type of
/// ticket.
pub proof fn every_passenger_is_sent(ticket_type: Seq<char>, ids: Seq<Seq<char>>, i: nat)
    requires
        i < ids.len(),
    ensures
        looked_up(
            all_passenger_fields(ticket_type, ids),
            passenger_field(i, "passengerDataIdNumber"@),
        ) == ids[i as int],
        looked_up(
            all_passenger_fields(ticket_type, ids),
            passenger_field(i, "passengerDataTypeName"@),
        ) == ticket_type,
        looked_up(
            all_passenger_fields(ticket_type, ids),
            passenger_field(i, "passengerDataInputChoice"@),
        ) == "0"@,
        all_passenger_fields(ticket_type, ids).contains(
            (passenger_field(i, "passengerDataLastName"@), ""@),
        ),
        all_passenger_fields(ticket_type, ids).contains(
            (passenger_field(i, "passengerDataFirstName"@), ""@),
        ),
{
    let fields = all_passenger_fields(ticket_type, ids);
    passenger_names_are_distinct(ticket_type, ids);
    lemma_passenger_field_at(ticket_type, ids, (5 * i + 3) as int);
    lemma_passenger_field_at(ticket_type, ids, (5 * i + 2) as int);
    lemma_looked_up(fields, (5 * i + 3) as int);
    lemma_looked_up(fields, (5 * i + 2) as int);
    lemma_passenger_field_at(ticket_type, ids, (5 * i + 4) as int);
    lemma_looked_up(fields, (5 * i + 4) as int);
    lemma_passenger_field_at(ticket_type, ids, (5 * i) as int);
    lemma_passenger_field_at(ticket_type, ids, (5 * i + 1) as int);
    assert(fields[(5 * i) as int] == (passenger_field(i, "passengerDataLastName"@), ""@));
    assert(fields[(5 * i + 1) as int] == (passenger_field(i, "passengerDataFirstName"@), ""@));
}

/// Once all IDs are known, what is sent of the passengers is five fields for
/// each of them, in their order, and no others.
pub proof fn all_passengers_are_sent(early_bird: EarlyBird)
    requires
        early_bird.all_known(),
    ensures
        early_bird.fields().len() == 5 * early_bird.passengers(),
        forall|i: nat|
            i < early_bird.passengers() ==> early_bird.fields().subrange(
                5 * i as int,
                5 * i as int + 5,
            ) == #[trigger] passenger_fields(
                i,
                early_bird.ticket_type(),
                early_bird.ids()[i as int],
            ),
{
    let (ticket_type, ids) = (early_bird.ticket_type(), early_bird.ids());
    let fields = early_bird.fields();
    lemma_passenger_count(ticket_type, ids);
    assert forall|i: nat| i < early_bird.passengers() implies fields.subrange(
        5 * i as int,
        5 * i as int + 5,
    ) == #[trigger] passenger_fields(i, ticket_type, ids[i as int]) by {
        let part = fields.subrange(5 * i as int, 5 * i as int + 5);
        let own = passenger_fields(i, ticket_type, ids[i as int]);
        assert forall|k: int| 0 <= k < 5 implies part[k] == own[k] by {
            lemma_passenger_field_at(ticket_type, ids, 5 * i as int + k);
        }
        assert(part =~= own);
    }
}

/// The IDs that are known after lines were typed, one after the other.
pub open spec fn with_lines(
    ids: Seq<Seq<char>>,
    passengers: nat,
    lines: Seq<Seq<char>>,
) -> Seq<Seq<char>>
    decreases lines.len(),
{
    if lines.len() == 0 {
        ids
    } else {
        with_line(with_lines(ids, passengers, lines.drop_last()), passengers, lines.last())
    }
}

/// The lines that are more than white space, without the white space around
/// them.
pub open spec fn typed_ids(lines: Seq<Seq<char>>) -> Seq<Seq<char>>
    decreases lines.len(),
{
    if lines.len() == 0 {
        seq![]
    } else {
        let before = typed_ids(lines.drop_last());
        if trimmed(lines.last()).len() > 0 {
            before.push(trimmed(lines.last()))
        } else {
            before
        }
    }
}

/// The IDs that are typed name the passengers in their order: lines of white
/// space are passed over, and what is typed after the last passenger is not
/// taken.
pub proof fn typed_ids_name_the_passengers(
    ids: Seq<Seq<char>>,
    passengers: nat,
    lines: Seq<Seq<char>>,
)
    requires
        ids.len() <= passengers,
    ensures
        with_lines(ids, passengers, lines) == ids + typed_ids(lines).take(
            if typed_ids(lines).len() <= passengers - ids.len() {
                typed_ids(lines).len() as int
            } else {
                passengers - ids.len()
            },
        ),
    decreases lines.len(),
{
    let typed = typed_ids(lines);
    let room = passengers - ids.len();
    if lines.len() == 0 {
        assert(ids + typed.take(0) =~= ids);
    } else {
        let before = typed_ids(lines.drop_last());
        typed_ids_name_the_passengers(ids, passengers, lines.drop_last());
        let n = if typed.len() <= room {
            typed.len() as int
        } else {
            room
        };
        assert(with_lines(ids, passengers, lines) =~= ids + typed.take(n));
    }
}

/// The name of a passenger's field has five parts, with colons between them:
/// the panel, the list, the place of the passenger, their data, and the field.
pub proof fn passenger_field_has_five_parts(i: nat, name: Seq<char>)
    requires
        !name.contains(':'),
    ensures
        pieces(passenger_field(i, name), ':') == seq![
            "TicketPassengerInfoInputPanel"@,
            "passengerDataView"@,
            decimal(i),
            "passengerDataView2"@,
            name,
        ],
{
    reveal_strlit("TicketPassengerInfoInputPanel:passengerDataView:");
    reveal_strlit(":passengerDataView2:");
    reveal_strlit("TicketPassengerInfoInputPanel");
    reveal_strlit("passengerDataView");
    reveal_strlit("passengerDataView2");
    let a = "TicketPassengerInfoInputPanel"@;
    let b = "passengerDataView"@;
    let c = decimal(i);
    let d = "passengerDataView2"@;
    let sep = seq![':'];
    let parts = seq![a, b, c, d, name];
    lemma_no_colon(i);
    assert forall|k: int, j: int|
        0 <= k < parts.len() && 0 <= j < parts[k].len() implies #[trigger] parts[k][j] != ':' by {
        if k == 4 {
            assert(name.contains(name[j]));
        } else if k == 2 {
            assert(c[j] != ':');
        } else {
            lemma_no_colon_in_names();
            assert(parts[k].contains(parts[k][j]));
        }
    }
    lemma_pieces_of_joined(parts, ':');
    let p4 = seq![a, b, c, d];
    let p3 = seq![a, b, c];
    let p2 = seq![a, b];
    assert(parts.drop_last() =~= p4);
    assert(p4.drop_last() =~= p3);
    assert(p3.drop_last() =~= p2);
    assert(p2.drop_last() =~= seq![a]);
    assert(joined(seq![a], sep) == a);
    assert(joined(p2, sep) == a + sep + b);
    assert(joined(p3, sep) == a + sep + b + sep + c);
    assert(joined(p4, sep) == a + sep + b + sep + c + sep + d);
    assert("TicketPassengerInfoInputPanel:passengerDataView:"@ =~= a + sep + b + sep);
    assert(":passengerDataView2:"@ =~= sep + d + sep);
    assert(joined(parts, sep) =~= passenger_field(i, name));
}

proof fn lemma_no_colon_in_names()
    ensures
        !"TicketPassengerInfoInputPanel"@.contains(':'),
        !"passengerDataView"@.contains(':'),
        !"passengerDataView2"@.contains(':'),
{
    reveal_strlit("TicketPassengerInfoInputPanel");
    reveal_strlit("passengerDataView");
    reveal_strlit("passengerDataView2");
}

/// What is set in the last form is sent: every field under its name, with its
/// value, and nothing else.
pub proof fn last_form_is_sent(form: ConfirmTicketPayload)
    ensures
        ({
            let f = form.fields();
            &&& f.len() == 11
            &&& f.contains(("dummyId"@, form.personal_id@))
            &&& f.contains(("dummyPhone"@, form.phone_num@))
            &&& f.contains(
                (
                    "TicketMemberSystemInputPanel:TakerMemberSystemDataView:memberSystemRadioGroup"@,
                    form.member_radio@,
                ),
            )
            &&& f.contains(("BookingS3FormSP:hf:0"@, form.form_mark@))
            &&& f.contains(("email"@, form.email@))
            &&& f.contains(("agree"@, form.agree@))
            &&& f.contains(("isGoBackM"@, form.go_back_m@))
            &&& f.contains(("backHome"@, form.back_home@))
            &&& f[4].0 == "idInputRadio"@ && number(f[4].1, 255) == Some(
                form.id_input_radio as nat,
            )
            &&& f[5].0 == "diffOver"@ && number(f[5].1, 255) == Some(form.diff_over as nat)
            &&& f[10].0 == "TgoError"@ && number(f[10].1, 255) == Some(form.tgo_error as nat)
        }),
{
    let f = form.fields();
    number_reads_decimal(form.id_input_radio as nat, 255);
    number_reads_decimal(form.diff_over as nat, 255);
    number_reads_decimal(form.tgo_error as nat, 255);
    assert(f[0] == ("dummyId"@, form.personal_id@));
    assert(f[1] == ("dummyPhone"@, form.phone_num@));
    assert(f[2] == (
        "TicketMemberSystemInputPanel:TakerMemberSystemDataView:memberSystemRadioGroup"@,
        form.member_radio@,
    ));
    assert(f[3] == ("BookingS3FormSP:hf:0"@, form.form_mark@));
    assert(f[6] == ("email"@, form.email@));
    assert(f[7] == ("agree"@, form.agree@));
    assert(f[8] == ("isGoBackM"@, form.go_back_m@));
    assert(f[9] == ("backHome"@, form.back_home@));
}

/// The ticket is for the person whose ID was given, with the radio button that
/// was chosen: the ID and the value of the button stand in the form as they are.
pub proof fn ticket_is_for_the_person(id: Seq<char>, member_radio: Seq<char>)
    ensures
        ({
            let f = ticket_fields(id, member_radio);
            &&& f.len() == 11
            &&& f.contains(("dummyId"@, id))
            &&& f.contains(
                (
                    "TicketMemberSystemInputPanel:TakerMemberSystemDataView:memberSystemRadioGroup"@,
                    member_radio,
                ),
            )
            &&& f.contains(("dummyPhone"@, ""@))
            &&& f.contains(("BookingS3FormSP:hf:0"@, ""@))
            &&& f.contains(("idInputRadio"@, seq!['0']))
            &&& f.contains(("diffOver"@, seq!['1']))
            &&& f.contains(("email"@, ""@))
            &&& f.contains(("agree"@, "on"@))
            &&& f.contains(("isGoBackM"@, ""@))
            &&& f.contains(("backHome"@, ""@))
            &&& f.contains(("TgoError"@, seq!['1']))
        }),
{
    let f = ticket_fields(id, member_radio);
    assert(decimal(0) =~= seq!['0']);
    assert(decimal(1) =~= seq!['1']);
    assert(f[0] == ("dummyId"@, id));
    assert(f[1] == ("dummyPhone"@, ""@));
    assert(f[2] == (
        "TicketMemberSystemInputPanel:TakerMemberSystemDataView:memberSystemRadioGroup"@,
        member_radio,
    ));
    assert(f[3] == ("BookingS3FormSP:hf:0"@, ""@));
    assert(f[4] == ("idInputRadio"@, seq!['0']));
    assert(f[5] == ("diffOver"@, seq!['1']));
    assert(f[6] == ("email"@, ""@));
    assert(f[7] == ("agree"@, "on"@));
    assert(f[8] == ("isGoBackM"@, ""@));
    assert(f[9] == ("backHome"@, ""@));
    assert(f[10] == ("TgoError"@, seq!['1']));
}

/// The personal ID is what was given, without the white space around it, and
/// none is there exactly where nothing but white space was given.
pub proof fn given_id_is_kept(before: Seq<char>, id: Seq<char>, after: Seq<char>)
    requires
        all_space(before),
        all_space(after),
        id.len() > 0 ==> !is_space(id[0]) && !is_space(id.last()),
    ensures
        given_id(Some(before + id + after)) == id,
        given_id(None) == Seq::<char>::empty(),
{
    trimming_takes_white_space(before, id, after);
}

/// The value of the first button is chosen, whatever follows. The number of a
/// member goes with it exactly where a membership is used, and is sent as it is.
pub proof fn membership_is_chosen(
    value: Seq<char>,
    texts: Seq<Seq<char>>,
    more: Seq<ElementView>,
    id: Seq<char>,
)
    ensures
        ({
            let buttons = seq![(seq![Some(value)], texts)] + more;
            &&& membership_choice(buttons, id, false) == Some((value, None::<Seq<char>>))
            &&& membership_choice(buttons, id, true) == Some(
                (
                    value,
                    Some(
                        encoded_form(
                            seq![
                                (
                                    "TicketMemberSystemInputPanel:TakerMemberSystemDataView:memberSystemRadioGroup:memberShipNumber"@,
                                    id,
                                ),
                                (
                                    "TicketMemberSystemInputPanel:TakerMemberSystemDataView:memberSystemRadioGroup:memberSystemShipCheckBox"@,
                                    "on"@,
                                ),
                            ],
                        ),
                    ),
                ),
            )
            &&& membership_choice(seq![], id, false) is None
            &&& membership_choice(seq![], id, true) is None
        }),
{
    let e: ElementView = (seq![Some(value)], texts);
    assert((seq![e] + more)[0] == e);
}

/// The number of the passenger who is asked is read back off the question.
pub proof fn prompt_names_the_passenger(passenger: nat)
    ensures
        ({
            let front = "Input passenger's ID for passenger "@;
            &&& front.is_prefix_of(prompt_text(passenger))
            &&& cut(prompt_text(passenger).skip(front.len() as int), '\n') matches Some((shown, _))
            &&& number(shown, passenger) == Some(passenger)
        }),
{
    let front = "Input passenger's ID for passenger "@;
    let end = "\n(ID change is not allowed after input!):"@;
    reveal_strlit("\n(ID change is not allowed after input!):");
    let shown = decimal(passenger);
    assert(prompt_text(passenger).subrange(0, front.len() as int) =~= front);
    assert(end =~= seq!['\n'] + end.skip(1));
    assert(prompt_text(passenger).skip(front.len() as int) =~= shown + seq!['\n'] + end.skip(1));
    lemma_decimal_digits(passenger);
    assert forall|i: int| 0 <= i < shown.len() implies #[trigger] shown[i] != '\n' by {
        assert(is_digit(shown[i]));
    }
    lemma_cut_front(shown, '\n', end.skip(1));
    number_reads_decimal(passenger, passenger);
}

/// Every mark with a text is a passenger, and no other is: the passengers of
/// two lists of marks are counted together.
pub proof fn every_mark_is_a_passenger(
    a: Seq<ElementView>,
    b: Seq<ElementView>,
    attrs: Seq<Option<Seq<char>>>,
    text: Seq<char>,
    more: Seq<Seq<char>>,
)
    ensures
        asked_passengers(a + b) == asked_passengers(a) + asked_passengers(b),
        asked_passengers(seq![(attrs, seq![text] + more)]) == 1,
        asked_passengers(seq![(attrs, seq![])]) == 0,
        asked_passengers(seq![]) == 0,
{
    first_texts_are_taken_in_order(a, b, attrs, text, more);
}

} // verus!
