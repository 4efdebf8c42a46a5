//! The second page of the booking: the trains that are offered and the one that
//! is taken.
use vstd::prelude::*;
use vstd::string::*;
use crate::form::{add_field, encode_form, encoded_form, FormRequest};
use crate::number::{
    decimal, decimal_padded, is_digit, lemma_decimal_digits, number, number_reads_decimal,
    number_reads_decimal_padded,
    read_number, write_decimal, zeros_stand_before,
};
use crate::page::{
    attr_of_first, find_below, find_texts, first_attr, first_text, found, found_below, Element,
    ElementView,
};
use crate::text::{
    all_space, cut, cutting_finds_the_first, join, joined, lemma_cut_front, lemma_joined_front, pad_left, padded,
    padding_stands_before, split_once, trim, trimmed, trimming_takes_white_space,
};

verus! {

pub const CONFIRM_TRAIN_URL: &'static str =
    "https://irs.thsrc.com.tw/IMINT/?wicket:interface=:1:BookingS2Form::IFormSubmitListener";

/// The latest departure that is taken, in minutes of the day: noon.
pub const FIXED_LATEST_DEPARTURE_MINUTES: u16 = 720;

/// The texts of each alert of the page, put together and trimmed.
pub open spec fn alert_texts(alerts: Seq<ElementView>) -> Seq<Seq<char>> {
    alerts.map_values(|e: ElementView| trimmed(joined(e.1, ""@)))
}

/// The texts of the alerts.
pub fn alerts_in(alerts: &Vec<Element>) -> (r: Vec<String>)
    ensures
        r.deep_view() == alert_texts(alerts.deep_view()),
{
    let mut out: Vec<String> = Vec::new();
    let mut i: usize = 0;
    while i < alerts.len()
        invariant
            i <= alerts.len(),
            out.len() == i,
            forall|j: int|
                0 <= j < i ==> (#[trigger] out@[j])@ == trimmed(
                    joined(alerts@[j].texts.deep_view(), ""@),
                ),
        decreases alerts.len() - i,
    {
        out.push(trim(join(&alerts[i].texts, "").as_str()).to_string());
        i = i + 1;
    }
    assert(out.deep_view() =~= alert_texts(alerts.deep_view()));
    out
}

/// The alerts that the page shows.
pub fn parse_alert_body(page: &str) -> (r: Vec<String>)
    ensures
        r.deep_view() == alert_texts(found(page@, "ul.alert-body > li"@, seq![])),
{
    proof {
        reveal_strlit("ul.alert-body > li");
    }
    alerts_in(&find_texts(page, "ul.alert-body > li"))
}

/// A train that is offered.
#[derive(Debug)]
pub struct Train {
    pub id: u32,
    pub depart: String,
    pub arrive: String,
    pub travel_time: String,
    pub discount_info: String,
    pub form_value: String,
}

/// What a train is in contracts.
pub struct TrainView {
    pub id: u32,
    pub depart: Seq<char>,
    pub arrive: Seq<char>,
    pub travel_time: Seq<char>,
    pub discount_info: Seq<char>,
    pub form_value: Seq<char>,
}

impl DeepView for Train {
    type V = TrainView;

    open spec fn deep_view(&self) -> Self::V {
        TrainView {
            id: self.id,
            depart: self.depart@,
            arrive: self.arrive@,
            travel_time: self.travel_time@,
            discount_info: self.discount_info@,
            form_value: self.form_value@,
        }
    }
}

/// The label of one discount: none where the train does not have it. Where the
/// element has no text there is no answer.
pub open spec fn discount_label(tags: Seq<ElementView>) -> Option<Seq<Seq<char>>> {
    if tags.len() == 0 {
        Some(seq![])
    } else {
        match first_text(tags[0]) {
            Some(text) => Some(seq![text]),
            None => None,
        }
    }
}

/// The discounts of a train in brackets, with commas between them.
pub open spec fn discount_note(labels: Seq<Seq<char>>) -> Seq<char> {
    if labels.len() > 0 {
        "("@ + joined(labels, ", "@) + ")"@
    } else {
        seq![]
    }
}

/// The discounts of a train: early bird first, and student.
pub open spec fn discounts(early_bird: Seq<ElementView>, student: Seq<ElementView>) -> Option<
    Seq<char>,
> {
    match (discount_label(early_bird), discount_label(student)) {
        (Some(a), Some(b)) => Some(discount_note(a + b)),
        _ => None,
    }
}

fn label_in(tags: &Vec<Element>) -> (r: Option<Vec<String>>)
    ensures
        r.deep_view() == discount_label(tags.deep_view()),
{
    let mut labels: Vec<String> = Vec::new();
    assert(labels.deep_view() =~= seq![]);
    if tags.len() > 0 {
        match tags[0].text() {
            Some(text) => {
                labels.push(text);
                assert(labels.deep_view() =~= seq![text@]);
            },
            None => return None,
        }
    }
    Some(labels)
}

/// The discounts of a train, from the labels that were found in its entry.
pub fn parse_discount(early_bird: &Vec<Element>, student: &Vec<Element>) -> (r: Option<String>)
    ensures
        r.deep_view() == discounts(early_bird.deep_view(), student.deep_view()),
{
    match (label_in(early_bird), label_in(student)) {
        (Some(mut labels), Some(mut more)) => {
            let ghost (a, b) = (labels.deep_view(), more.deep_view());
            labels.append(&mut more);
            assert(labels.deep_view() =~= a + b);
            if labels.len() > 0 {
                let mut s: String = "(".to_string();
                s.append(join(&labels, ", ").as_str());
                s.append(")");
                Some(s)
            } else {
                Some(String::new())
            }
        },
        _ => None,
    }
}

/// The train of one entry: the input in it with the five attributes, and its
/// discount labels. Where one of them is missing, or the number is none, there
/// is no answer.
pub open spec fn train_of(entry: Seq<Seq<ElementView>>) -> Option<TrainView> {
    if entry.len() != 3 {
        None
    } else {
        let input = entry[0];
        let id = match first_attr(input, 0) {
            Some(code) => number(code, u32::MAX as nat),
            None => None,
        };
        match (
            id,
            first_attr(input, 1),
            first_attr(input, 2),
            first_attr(input, 3),
            first_attr(input, 4),
            discounts(entry[1], entry[2]),
        ) {
            (
                Some(id),
                Some(depart),
                Some(arrive),
                Some(travel_time),
                Some(form_value),
                Some(discount_info),
            ) => Some(
                TrainView {
                    id: id as u32,
                    depart,
                    arrive,
                    travel_time,
                    discount_info,
                    form_value,
                },
            ),
            _ => None,
        }
    }
}

/// The trains of all entries, in their order.
pub open spec fn trains_of(entries: Seq<Seq<Seq<ElementView>>>) -> Option<Seq<TrainView>>
    decreases entries.len(),
{
    if entries.len() == 0 {
        Some(seq![])
    } else {
        match (trains_of(entries.drop_last()), train_of(entries.last())) {
            (Some(before), Some(train)) => Some(before.push(train)),
            _ => None,
        }
    }
}

proof fn lemma_no_trains(entries: Seq<Seq<Seq<ElementView>>>, k: int)
    requires
        0 <= k <= entries.len(),
        trains_of(entries.subrange(0, k)) is None,
    ensures
        trains_of(entries) is None,
    decreases entries.len(),
{
    if k < entries.len() {
        assert(entries.drop_last().subrange(0, k) =~= entries.subrange(0, k));
        lemma_no_trains(entries.drop_last(), k);
    } else {
        assert(entries.subrange(0, k) =~= entries);
    }
}

fn train_in(entry: &Vec<Vec<Element>>) -> (r: Option<Train>)
    ensures
        r.deep_view() == train_of(entry.deep_view()),
{
    if entry.len() != 3 {
        return None;
    }
    let ghost e = entry.deep_view();
    assert(e[0] == entry@[0].deep_view());
    assert(e[1] == entry@[1].deep_view());
    assert(e[2] == entry@[2].deep_view());
    let input: &Vec<Element> = &entry[0];
    let id: Option<u64> = match attr_of_first(input, 0) {
        Some(code) => read_number(code.as_str(), u32::MAX as u64),
        None => None,
    };
    match (
        id,
        attr_of_first(input, 1),
        attr_of_first(input, 2),
        attr_of_first(input, 3),
        attr_of_first(input, 4),
        parse_discount(&entry[1], &entry[2]),
    ) {
        (
            Some(id),
            Some(depart),
            Some(arrive),
            Some(travel_time),
            Some(form_value),
            Some(discount_info),
        ) => Some(
            Train { id: id as u32, depart, arrive, travel_time, discount_info, form_value },
        ),
        _ => None,
    }
}

/// The trains of the entries; nothing where one of them cannot be read.
pub fn trains_in(entries: &Vec<Vec<Vec<Element>>>) -> (r: Option<Vec<Train>>)
    ensures
        r.deep_view() == trains_of(entries.deep_view()),
{
    let mut out: Vec<Train> = Vec::new();
    let mut i: usize = 0;
    let ghost all = entries.deep_view();
    assert(out.deep_view() =~= seq![]);
    while i < entries.len()
        invariant
            all == entries.deep_view(),
            i <= entries.len(),
            trains_of(all.subrange(0, i as int)) == Some(out.deep_view()),
        decreases entries.len() - i,
    {
        let ghost before = out.deep_view();
        proof {
            let next = all.subrange(0, i + 1);
            assert(next.drop_last() =~= all.subrange(0, i as int));
            assert(next.last() == entries@[i as int].deep_view());
        }
        match train_in(&entries[i]) {
            Some(train) => {
                out.push(train);
                assert(out.deep_view() =~= before.push(train.deep_view()));
            },
            None => {
                proof {
                    lemma_no_trains(all, i + 1);
                }
                return None;
            },
        }
        i = i + 1;
    }
    assert(all.subrange(0, all.len() as int) =~= all);
    Some(out)
}

/// The trains that the page offers; nothing where an entry cannot be read.
pub fn parse_trains(page: &str) -> (r: Option<Vec<Train>>)
    ensures
        r.deep_view() == trains_of(
            found_below(
                page@,
                "label.result-item"@,
                seq!["input"@, "p.early-bird span"@, "p.student span"@],
                seq![
                    "querycode"@,
                    "querydeparture"@,
                    "queryarrival"@,
                    "queryestimatedtime"@,
                    "value"@,
                ],
            ),
        ),
{
    let inner: [&str; 3] = ["input", "p.early-bird span", "p.student span"];
    let names: [&str; 5] = [
        "querycode",
        "querydeparture",
        "queryarrival",
        "queryestimatedtime",
        "value",
    ];
    assert(inner.deep_view() =~= seq!["input"@, "p.early-bird span"@, "p.student span"@]);
    assert(names.deep_view() =~= seq![
        "querycode"@,
        "querydeparture"@,
        "queryarrival"@,
        "queryestimatedtime"@,
        "value"@,
    ]);
    proof {
        reveal_strlit("label.result-item");
        reveal_strlit("input");
        reveal_strlit("p.early-bird span");
        reveal_strlit("p.student span");
    }
    trains_in(&find_below(page, "label.result-item", &inner, &names))
}

/// The minute of the day that a time of day writes: hours and minutes with a
/// colon between them, and white space around them.
pub open spec fn minute_of_day(value: Seq<char>) -> Option<nat> {
    match cut(trimmed(value), ':') {
        Some((h, m)) => match (number(h, u16::MAX as nat), number(m, u16::MAX as nat)) {
            (Some(hour), Some(minute)) => if hour < 24 && minute < 60 {
                Some(hour * 60 + minute)
            } else {
                None
            },
            _ => None,
        },
        None => None,
    }
}

/// The train's departure is a time of day, and no later than the latest that is
/// taken.
pub open spec fn in_time(train: TrainView) -> bool {
    match minute_of_day(train.depart) {
        Some(minute) => minute <= FIXED_LATEST_DEPARTURE_MINUTES,
        None => false,
    }
}

/// The first train in the list that departs in time.
pub open spec fn first_in_time(trains: Seq<TrainView>) -> Option<TrainView>
    decreases trains.len(),
{
    if trains.len() == 0 {
        None
    } else if in_time(trains[0]) {
        Some(trains[0])
    } else {
        first_in_time(trains.drop_first())
    }
}

/// Why no train of a list is taken.
pub open spec fn refusal(trains: Seq<TrainView>) -> Seq<char> {
    if trains.len() == 0 {
        "NO_TRAIN_AVAILABLE"@
    } else {
        "NO_TRAIN_IN_REQUESTED_TIME_WINDOW"@
    }
}

/// The form of the second page.
#[derive(Debug)]
pub struct ConfirmTrainPayload {
    pub selected_train: String,
    pub form_mark: String,
}

impl Default for ConfirmTrainPayload {
    fn default() -> (r: Self)
        ensures
            r.selected_train@ == ""@,
            r.form_mark@ == ""@,
    {
        ConfirmTrainPayload { selected_train: "".to_string(), form_mark: "".to_string() }
    }
}

fn find_in_time(trains: &[Train]) -> (r: Option<usize>)
    ensures
        match r {
            Some(i) => i < trains@.len() && first_in_time(trains.deep_view()) == Some(
                trains@[i as int].deep_view(),
            ),
            None => first_in_time(trains.deep_view()) is None,
        },
{
    let mut i: usize = 0;
    let ghost all = trains.deep_view();
    assert(all.skip(0) =~= all);
    while i < trains.len()
        invariant
            all == trains.deep_view(),
            i <= trains@.len(),
            first_in_time(all) == first_in_time(all.skip(i as int)),
        decreases trains@.len() - i,
    {
        assert(all.skip(i as int)[0] == trains@[i as int].deep_view());
        assert(all.skip(i as int).drop_first() =~= all.skip(i + 1));
        match ConfirmTrainPayload::departure_minutes(trains[i].depart.as_str()) {
            Some(minute) => {
                if minute <= FIXED_LATEST_DEPARTURE_MINUTES {
                    return Some(i);
                }
            },
            None => {},
        }
        i = i + 1;
    }
    None
}

impl ConfirmTrainPayload {
    /// Takes the first train that departs in time. An empty list and a list
    /// without such a train are refused, and leave the form as it is.
    pub fn select_available_trains(&mut self, trains: &[Train]) -> (r: Result<(), String>)
        ensures
            match first_in_time(trains.deep_view()) {
                Some(train) => {
                    &&& r is Ok
                    &&& final(self).selected_train@ == train.form_value
                    &&& final(self).form_mark == old(self).form_mark
                },
                None => {
                    &&& *final(self) == *old(self)
                    &&& r matches Err(e)
                    &&& e@ == refusal(trains.deep_view())
                },
            },
            r is Ok <==> exists|i: int|
                0 <= i < trains@.len() && in_time((#[trigger] trains@[i]).deep_view()),
            r is Ok ==> exists|i: int|
                0 <= i < trains@.len() && final(self).selected_train@ == (
                #[trigger] trains@[i]).form_value@,
    {
        proof {
            taken_train_is_first_in_time(trains.deep_view());
            assert forall|i: int| 0 <= i < trains@.len() implies (#[trigger] trains@[i]).deep_view()
                == trains.deep_view()[i] by {}
        }
        if trains.len() == 0 {
            return Err("NO_TRAIN_AVAILABLE".to_string());
        }
        match find_in_time(trains) {
            Some(i) => {
                self.selected_train = trains[i].form_value.clone();
                Ok(())
            },
            None => Err("NO_TRAIN_IN_REQUESTED_TIME_WINDOW".to_string()),
        }
    }

    /// The minute of the day that a time of day writes.
    pub fn departure_minutes(value: &str) -> (r: Option<u16>)
        ensures
            match r {
                Some(n) => minute_of_day(value@) == Some(n as nat),
                None => minute_of_day(value@) is None,
            },
    {
        match split_once(trim(value), ':') {
            Some((h, m)) => {
                match (read_number(h, u16::MAX as u64), read_number(m, u16::MAX as u64)) {
                    (Some(hour), Some(minute)) => if hour < 24 && minute < 60 {
                        Some((hour * 60 + minute) as u16)
                    } else {
                        None
                    },
                    _ => None,
                }
            },
            None => None,
        }
    }

    /// The form as the site expects it.
    pub open spec fn fields(self) -> Seq<(Seq<char>, Seq<char>)> {
        seq![
            ("TrainQueryDataViewPanel:TrainGroup"@, self.selected_train@),
            ("BookingS2Form:hf:0"@, self.form_mark@),
        ]
    }

    /// The fields of the form under the names that the site gives them.
    pub fn form_fields(&self) -> (r: Vec<(String, String)>)
        ensures
            r.deep_view() == self.fields(),
    {
        let mut f: Vec<(String, String)> = Vec::new();
        assert(f.deep_view() =~= seq![]);
        add_field(&mut f, "TrainQueryDataViewPanel:TrainGroup", self.selected_train.as_str());
        add_field(&mut f, "BookingS2Form:hf:0", self.form_mark.as_str());
        assert(f.deep_view() =~= self.fields());
        f
    }

    /// The body of the request that sends the form.
    pub fn encode(&self) -> (r: String)
        ensures
            r@ == encoded_form(self.fields()),
    {
        encode_form(&self.form_fields())
    }
}

/// One line of the list of trains, in columns.
pub open spec fn train_line(place: nat, train: TrainView) -> Seq<char> {
    padded(decimal(place), 2) + ". "@ + padded(decimal(train.id as nat), 4) + " "@ + padded(
        train.depart,
        5,
    ) + "~"@ + padded(train.arrive, 5) + " "@ + padded(train.travel_time, 4) + " "@
        + train.discount_info
}

/// The list of trains, a line for each, numbered from 1.
pub open spec fn list_lines(trains: Seq<TrainView>) -> Seq<Seq<char>> {
    Seq::new(trains.len(), |i: int| train_line((i + 1) as nat, trains[i]))
}

/// The list of trains, a line for each, numbered from 1.
pub fn train_list(trains: &[Train]) -> (r: Vec<String>)
    ensures
        r.deep_view() == list_lines(trains.deep_view()),
{
    let mut out: Vec<String> = Vec::new();
    let mut i: usize = 0;
    while i < trains.len()
        invariant
            i <= trains@.len(),
            out.len() == i,
            forall|j: int|
                0 <= j < i ==> (#[trigger] out@[j])@ == train_line(
                    (j + 1) as nat,
                    trains@[j].deep_view(),
                ),
        decreases trains@.len() - i,
    {
        let train: &Train = &trains[i];
        let mut s: String = pad_left(write_decimal(i as u128 + 1).as_str(), 2);
        s.append(". ");
        s.append(pad_left(write_decimal(train.id as u128).as_str(), 4).as_str());
        s.append(" ");
        s.append(pad_left(train.depart.as_str(), 5).as_str());
        s.append("~");
        s.append(pad_left(train.arrive.as_str(), 5).as_str());
        s.append(" ");
        s.append(pad_left(train.travel_time.as_str(), 4).as_str());
        s.append(" ");
        s.append(train.discount_info.as_str());
        out.push(s);
        i = i + 1;
    }
    assert(out.deep_view() =~= list_lines(trains.deep_view()));
    out
}

/// What is said of the train that is taken, or of why none is.
pub open spec fn selection_text(trains: Seq<TrainView>) -> Seq<char> {
    match first_in_time(trains) {
        Some(train) => "AUTO SELECT: Train "@ + decimal(train.id as nat) + " "@ + train.depart
            + " -> "@ + train.arrive,
        None => if trains.len() == 0 {
            "No available trains."@
        } else {
            "No train departing between 07:30 and 12:00 is currently available."@
        },
    }
}

/// What is said of the train that is taken, or of why none is.
pub fn selection_notice(trains: &[Train]) -> (r: String)
    ensures
        r@ == selection_text(trains.deep_view()),
{
    if trains.len() == 0 {
        return "No available trains.".to_string();
    }
    match find_in_time(trains) {
        Some(i) => {
            let train: &Train = &trains[i];
            let mut s: String = "AUTO SELECT: Train ".to_string();
            s.append(write_decimal(train.id as u128).as_str());
            s.append(" ");
            s.append(train.depart.as_str());
            s.append(" -> ");
            s.append(train.arrive.as_str());
            s
        },
        None => "No train departing between 07:30 and 12:00 is currently available.".to_string(),
    }
}

/// Takes a train of the list: the form that asks for it, or why there is none.
pub fn take_train(trains: &[Train]) -> (r: Result<FormRequest, String>)
    ensures
        match first_in_time(trains.deep_view()) {
            Some(train) => {
                &&& r matches Ok(request)
                &&& request.url@ == CONFIRM_TRAIN_URL@
                &&& request.body@ == encoded_form(
                    seq![
                        ("TrainQueryDataViewPanel:TrainGroup"@, train.form_value),
                        ("BookingS2Form:hf:0"@, ""@),
                    ],
                )
            },
            None => {
                &&& r matches Err(e)
                &&& e@ == refusal(trains.deep_view())
            },
        },
{
    let mut payload: ConfirmTrainPayload = ConfirmTrainPayload::default();
    match payload.select_available_trains(trains) {
        Ok(()) => Ok(
            FormRequest { url: CONFIRM_TRAIN_URL.to_string(), body: payload.encode() },
        ),
        Err(e) => Err(e),
    }
}

/// Every train has a time of departure, and none departs before the one in
/// front of it.
pub open spec fn in_order_of_departure(trains: Seq<TrainView>) -> bool {
    &&& forall|i: int|
        0 <= i < trains.len() ==> minute_of_day((#[trigger] trains[i]).depart) is Some
    &&& forall|i: int, j: int|
        0 <= i <= j < trains.len() ==> minute_of_day((#[trigger] trains[i]).depart).unwrap()
            <= minute_of_day((#[trigger] trains[j]).depart).unwrap()
}

/// The train that is taken departs in time. In a list in the order of departure
/// it is one that departs first, and no train is refused where one could be
/// taken.
pub proof fn taken_train_is_earliest(trains: Seq<TrainView>)
    requires
        in_order_of_departure(trains),
    ensures
        match first_in_time(trains) {
            Some(train) => in_time(train) && forall|i: int|
                0 <= i < trains.len() ==> minute_of_day(train.depart).unwrap() <= minute_of_day(
                    (#[trigger] trains[i]).depart,
                ).unwrap(),
            None => forall|i: int| 0 <= i < trains.len() ==> !in_time(#[trigger] trains[i]),
        },
{
    if trains.len() > 0 {
        if in_time(trains[0]) {
        } else {
            assert forall|i: int| 0 <= i < trains.len() implies !in_time(#[trigger] trains[i]) by {
                assert(minute_of_day(trains[0].depart).unwrap() <= minute_of_day(
                    trains[i].depart,
                ).unwrap());
            }
            lemma_none_in_time(trains);
        }
    }
}

proof fn lemma_none_in_time(trains: Seq<TrainView>)
    requires
        forall|i: int| 0 <= i < trains.len() ==> !in_time(#[trigger] trains[i]),
    ensures
        first_in_time(trains) is None,
    decreases trains.len(),
{
    if trains.len() > 0 {
        let rest = trains.drop_first();
        assert forall|i: int| 0 <= i < rest.len() implies !in_time(#[trigger] rest[i]) by {
            assert(rest[i] == trains[i + 1]);
        }
        lemma_none_in_time(rest);
    }
}

/// The first train of the list is the one that is taken, where it departs in
/// time.
pub proof fn first_train_is_taken(trains: Seq<TrainView>)
    requires
        trains.len() > 0,
        in_time(trains[0]),
    ensures
        first_in_time(trains) == Some(trains[0]),
{
}

/// Whatever the list, a train is taken exactly where one departs in time, and
/// it is one of the list that does, with none before it that does.
pub proof fn taken_train_is_first_in_time(trains: Seq<TrainView>)
    ensures
        match first_in_time(trains) {
            Some(train) => exists|k: int|
                0 <= k < trains.len() && #[trigger] trains[k] == train && in_time(train) && forall|
                    i: int,
                |
                    0 <= i < k ==> !in_time(#[trigger] trains[i]),
            None => forall|i: int| 0 <= i < trains.len() ==> !in_time(#[trigger] trains[i]),
        },
    decreases trains.len(),
{
    if trains.len() > 0 && !in_time(trains[0]) {
        let rest = trains.drop_first();
        taken_train_is_first_in_time(rest);
        match first_in_time(rest) {
            Some(train) => {
                let k = choose|k: int|
                    0 <= k < rest.len() && #[trigger] rest[k] == train && in_time(train) && forall|
                        i: int,
                    |
                        0 <= i < k ==> !in_time(#[trigger] rest[i]);
                assert(trains[k + 1] == train);
                assert forall|i: int| 0 <= i < k + 1 implies !in_time(#[trigger] trains[i]) by {
                    if i > 0 {
                        assert(rest[i - 1] == trains[i]);
                    }
                }
            },
            None => {
                assert forall|i: int| 0 <= i < trains.len() implies !in_time(
                    #[trigger] trains[i],
                ) by {
                    if i > 0 {
                        assert(rest[i - 1] == trains[i]);
                    }
                }
            },
        }
    } else if trains.len() > 0 {
        assert(trains[0] == first_in_time(trains).unwrap());
    }
}

/// A time of day as it is written, with any number of zeros before hours and
/// minutes.
pub open spec fn written_time(hour: nat, minute: nat, widths: (nat, nat)) -> Seq<char> {
    decimal_padded(hour, widths.0) + seq![':'] + decimal_padded(minute, widths.1)
}

proof fn lemma_padded_is_digits(n: nat, width: nat)
    ensures
        decimal_padded(n, width).len() > 0,
        forall|i: int|
            0 <= i < decimal_padded(n, width).len() ==> '0' <= #[trigger] decimal_padded(
                n,
                width,
            )[i] <= '9',
{
    lemma_decimal_digits(n);
    zeros_stand_before(n, width);
    let s = decimal_padded(n, width);
    let k = s.len() - decimal(n).len();
    assert forall|i: int| 0 <= i < s.len() implies '0' <= #[trigger] s[i] <= '9' by {
        if i >= k {
            assert(s[i] == s.skip(k)[i - k]);
            assert(is_digit(decimal(n)[i - k]));
        }
    }
}

/// A written time of day is read as its minute of the day, 60 for each hour,
/// whatever white space is around it; hours from 24 on and minutes from 60 on
/// are none.
pub proof fn times_are_read(
    before: Seq<char>,
    hour: nat,
    minute: nat,
    widths: (nat, nat),
    after: Seq<char>,
)
    requires
        all_space(before),
        all_space(after),
        hour <= 65535,
        minute <= 65535,
    ensures
        minute_of_day(before + written_time(hour, minute, widths) + after) == (if hour < 24
            && minute < 60 {
            Some(60 * hour + minute)
        } else {
            None
        }),
{
    let h = decimal_padded(hour, widths.0);
    let m = decimal_padded(minute, widths.1);
    let s = written_time(hour, minute, widths);
    lemma_padded_is_digits(hour, widths.0);
    lemma_padded_is_digits(minute, widths.1);
    assert(s[0] == h[0]);
    assert(s.last() == m[m.len() - 1]);
    trimming_takes_white_space(before, s, after);
    lemma_cut_front(h, ':', m);
    number_reads_decimal_padded(hour, widths.0, u16::MAX as nat);
    number_reads_decimal_padded(minute, widths.1, u16::MAX as nat);
}

/// The train that is taken departs at noon or before by the hour and the minute
/// that are written for it, and every train before it in the list departs
/// later. Where none is taken, all of them depart later.
pub proof fn taken_train_departs_by_noon(
    trains: Seq<TrainView>,
    hours: Seq<nat>,
    minutes: Seq<nat>,
)
    requires
        hours.len() == trains.len(),
        minutes.len() == trains.len(),
        forall|i: int|
            0 <= i < trains.len() ==> hours[i] < 24 && minutes[i] < 60 && (
            #[trigger] trains[i]).depart == written_time(hours[i], minutes[i], (2, 2)),
    ensures
        match first_in_time(trains) {
            Some(train) => exists|k: int|
                {
                    &&& 0 <= k < trains.len()
                    &&& #[trigger] trains[k] == train
                    &&& 60 * hours[k] + minutes[k] <= 12 * 60
                    &&& forall|i: int|
                        0 <= i < k ==> 60 * #[trigger] hours[i] + minutes[i] > 12 * 60
                },
            None => forall|i: int|
                0 <= i < trains.len() ==> 60 * #[trigger] hours[i] + minutes[i] > 12 * 60,
        },
{
    assert forall|i: int| 0 <= i < trains.len() implies in_time(trains[i]) == (60
        * #[trigger] hours[i] + minutes[i] <= 12 * 60) by {
        let t = trains[i].depart;
        times_are_read(seq![], hours[i], minutes[i], (2, 2), seq![]);
        assert(seq![] + written_time(hours[i], minutes[i], (2, 2)) + seq![] =~= t);
    }
    taken_train_is_first_in_time(trains);
    if let Some(train) = first_in_time(trains) {
        let k = choose|k: int|
            0 <= k < trains.len() && #[trigger] trains[k] == train && in_time(train) && forall|
                i: int,
            |
                0 <= i < k ==> !in_time(#[trigger] trains[i]);
        assert(trains[k] == train);
        assert(60 * hours[k] + minutes[k] <= 12 * 60);
        assert forall|i: int| 0 <= i < k implies 60 * #[trigger] hours[i] + minutes[i] > 12
            * 60 by {
            assert(!in_time(trains[i]));
        }
    }
}

/// A list is read exactly where each of its entries is: as many trains come
/// out, each that of its entry, in their order.
pub proof fn trains_are_read_one_by_one(entries: Seq<Seq<Seq<ElementView>>>)
    ensures
        trains_of(entries) is Some <==> forall|i: int|
            0 <= i < entries.len() ==> train_of(#[trigger] entries[i]) is Some,
        trains_of(entries) matches Some(trains) ==> {
            &&& trains.len() == entries.len()
            &&& forall|i: int|
                0 <= i < entries.len() ==> train_of(#[trigger] entries[i]) == Some(trains[i])
        },
    decreases entries.len(),
{
    if entries.len() > 0 {
        let before = entries.drop_last();
        trains_are_read_one_by_one(before);
        assert forall|i: int| 0 <= i < before.len() implies #[trigger] before[i]
            == entries[i] by {}
        assert(entries[entries.len() - 1] == entries.last());
        if forall|i: int| 0 <= i < entries.len() ==> train_of(#[trigger] entries[i]) is Some {
            assert forall|i: int| 0 <= i < before.len() implies train_of(
                #[trigger] before[i],
            ) is Some by {
                assert(train_of(entries[i]) is Some);
            }
        }
        if let Some(trains) = trains_of(entries) {
            let earlier = trains_of(before).unwrap();
            assert forall|i: int| 0 <= i < entries.len() implies train_of(#[trigger] entries[i])
                == Some(trains[i]) by {
                if i < before.len() {
                    assert(train_of(before[i]) == Some(earlier[i]));
                }
            }
        }
    }
}

/// An element with these attributes and texts.
pub open spec fn element(attrs: Seq<Option<Seq<char>>>, texts: Seq<Seq<char>>) -> ElementView {
    (attrs, texts)
}

/// A train is what its entry says: the number in the first attribute, the other
/// attributes as they stand, and the first texts of the first labels as
/// discounts. Further elements and texts do not matter.
pub proof fn train_is_what_its_entry_says(
    train: TrainView,
    width: nat,
    texts: Seq<Seq<char>>,
    more_inputs: Seq<ElementView>,
    early_bird: Seq<ElementView>,
    student: Seq<ElementView>,
)
    requires
        Some(train.discount_info) == discounts(early_bird, student),
    ensures
        train_of(
            seq![
                seq![
                    element(
                        seq![
                            Some(decimal_padded(train.id as nat, width)),
                            Some(train.depart),
                            Some(train.arrive),
                            Some(train.travel_time),
                            Some(train.form_value),
                        ],
                        texts,
                    ),
                ] + more_inputs,
                early_bird,
                student,
            ],
        ) == Some(train),
{
    number_reads_decimal_padded(train.id as nat, width, u32::MAX as nat);
}

/// The discounts in brackets: none, one of them or both, early bird first.
pub proof fn discounts_are_told(
    early: Seq<char>,
    student: Seq<char>,
    attrs: Seq<Option<Seq<char>>>,
    texts: Seq<Seq<char>>,
    more: Seq<ElementView>,
)
    ensures
        ({
            let a = seq![element(attrs, seq![early] + texts)] + more;
            let b = seq![element(attrs, seq![student] + texts)] + more;
            &&& discounts(seq![], seq![]) == Some(Seq::<char>::empty())
            &&& discounts(a, seq![]) == Some(seq!['('] + early + seq![')'])
            &&& discounts(seq![], b) == Some(seq!['('] + student + seq![')'])
            &&& discounts(a, b) == Some(
                seq!['('] + early + seq![',', ' '] + student + seq![')'],
            )
        }),
{
    reveal_strlit("(");
    reveal_strlit(")");
    reveal_strlit(", ");
    assert("("@ =~= seq!['(']);
    assert(")"@ =~= seq![')']);
    assert(", "@ =~= seq![',', ' ']);
    let none = Seq::<Seq<char>>::empty();
    assert(none + none =~= none);
    assert(seq![early] + none =~= seq![early]);
    assert(none + seq![student] =~= seq![student]);
    assert(seq![early] + seq![student] =~= seq![early, student]);
    lemma_joined_front(early, seq![student], ", "@);
    assert(joined(seq![student], ", "@) == student);
    let a = seq![element(attrs, seq![early] + texts)] + more;
    let b = seq![element(attrs, seq![student] + texts)] + more;
    assert(discount_label(a) == Some(seq![early]));
    assert(discount_label(b) == Some(seq![student]));
    assert("("@ + (early + ", "@ + student) + ")"@ =~= seq!['('] + early + seq![',', ' '] + student
        + seq![')']);
}

proof fn lemma_joined_by_nothing(texts: Seq<Seq<char>>)
    ensures
        joined(texts, ""@) == texts.flatten(),
    decreases texts.len(),
{
    reveal_strlit("");
    texts.lemma_flatten_and_flatten_alt_are_equivalent();
    if texts.len() > 0 {
        lemma_joined_by_nothing(texts.drop_last());
        texts.drop_last().lemma_flatten_and_flatten_alt_are_equivalent();
        if texts.len() == 1 {
            assert(texts.drop_last().flatten() =~= seq![]);
        }
        assert(joined(texts, ""@) =~= texts.drop_last().flatten() + texts.last());
    }
}

/// Alerts come one by one, and each is all of its texts, trimmed.
pub proof fn alerts_are_told(alerts: Seq<ElementView>)
    ensures
        alert_texts(alerts).len() == alerts.len(),
        forall|i: int|
            0 <= i < alerts.len() ==> #[trigger] alert_texts(alerts)[i] == trimmed(
                alerts[i].1.flatten(),
            ),
{
    assert forall|i: int| 0 <= i < alerts.len() implies #[trigger] alert_texts(alerts)[i]
        == trimmed(alerts[i].1.flatten()) by {
        lemma_joined_by_nothing(alerts[i].1);
    }
}

/// The columns of a line in the list: place, number, departure, arrival, travel
/// time, and the discounts behind them.
pub proof fn line_has_columns(place: nat, train: TrainView)
    requires
        place <= 99,
        train.id <= 9999,
        train.depart.len() == 5,
        train.arrive.len() == 5,
        train.travel_time.len() <= 4,
    ensures
        ({
            let line = train_line(place, train);
            &&& line.subrange(0, 2) == padded(decimal(place), 2)
            &&& line.subrange(4, 8) == padded(decimal(train.id as nat), 4)
            &&& line.subrange(9, 14) == train.depart
            &&& line.subrange(15, 20) == train.arrive
            &&& line.subrange(21, 25) == padded(train.travel_time, 4)
            &&& line.skip(26) == train.discount_info
        }),
{
    reveal_strlit(". ");
    reveal_strlit(" ");
    reveal_strlit("~");
    reveal_with_fuel(decimal, 5);
    let a = padded(decimal(place), 2);
    let b = padded(decimal(train.id as nat), 4);
    let c = padded(train.travel_time, 4);
    assert(decimal(place).len() <= 2);
    assert(decimal(train.id as nat).len() <= 4);
    padding_stands_before(decimal(place), 2);
    padding_stands_before(decimal(train.id as nat), 4);
    padding_stands_before(train.travel_time, 4);
    let line = train_line(place, train);
    assert(line.subrange(0, 2) =~= a);
    assert(line.subrange(4, 8) =~= b);
    assert(line.subrange(9, 14) =~= train.depart);
    assert(line.subrange(15, 20) =~= train.arrive);
    assert(line.subrange(21, 25) =~= c);
    assert(line.skip(26) =~= train.discount_info);
}

/// A text without a colon is no time, nor is one with something else than a
/// number before its first colon or behind it.
pub proof fn other_texts_are_no_times(a: Seq<char>, b: Seq<char>)
    requires
        !a.contains(':'),
    ensures
        trimmed(a) == a ==> minute_of_day(a) is None,
        trimmed(a + seq![':'] + b) == a + seq![':'] + b && (number(a, 65535) is None || number(
            b,
            65535,
        ) is None) ==> minute_of_day(a + seq![':'] + b) is None,
{
    cutting_finds_the_first(a, ':');
    if let Some((x, y)) = cut(a, ':') {
        assert(a[x.len() as int] == ':');
    }
    assert forall|i: int| 0 <= i < a.len() implies #[trigger] a[i] != ':' by {
        assert(a.contains(a[i]));
    }
    lemma_cut_front(a, ':', b);
}

/// The form that takes a train names the train and nothing else.
pub proof fn taken_train_is_sent(form: ConfirmTrainPayload)
    ensures
        form.fields().len() == 2,
        form.fields().contains(("TrainQueryDataViewPanel:TrainGroup"@, form.selected_train@)),
        form.fields().contains(("BookingS2Form:hf:0"@, form.form_mark@)),
{
    assert(form.fields()[0] == ("TrainQueryDataViewPanel:TrainGroup"@, form.selected_train@));
    assert(form.fields()[1] == ("BookingS2Form:hf:0"@, form.form_mark@));
}

/// A train comes only from an entry that says all of it: an input with all five
/// attributes, the first a number, and discounts that can be read.
pub proof fn incomplete_entries_are_no_trains(entry: Seq<Seq<ElementView>>)
    ensures
        train_of(entry) matches Some(train) ==> {
            &&& entry.len() == 3
            &&& entry[0].len() > 0
            &&& entry[0][0].0.len() >= 5
            &&& entry[0][0].0[0] matches Some(code) && number(code, 4294967295) == Some(
                train.id as nat,
            )
            &&& entry[0][0].0[1] == Some(train.depart)
            &&& entry[0][0].0[2] == Some(train.arrive)
            &&& entry[0][0].0[3] == Some(train.travel_time)
            &&& entry[0][0].0[4] == Some(train.form_value)
            &&& discounts(entry[1], entry[2]) == Some(train.discount_info)
        },
{
}

/// A discount label without a text cannot be read, and then nor can the
/// discounts.
pub proof fn silent_labels_are_unreadable(
    attrs: Seq<Option<Seq<char>>>,
    more: Seq<ElementView>,
    other: Seq<ElementView>,
)
    ensures
        discounts(seq![element(attrs, seq![])] + more, other) is None,
        discounts(other, seq![element(attrs, seq![])] + more) is None,
{
    let e = element(attrs, seq![]);
    assert((seq![e] + more)[0] == e);
}

/// What is said of a train that is taken names the train, its departure and its
/// arrival in full, the number read back as it is.
pub proof fn taken_train_is_told(trains: Seq<TrainView>)
    ensures
        first_in_time(trains) matches Some(train) ==> {
            let front = "AUTO SELECT: Train "@;
            let text = selection_text(trains);
            &&& front.is_prefix_of(text)
            &&& cut(text.skip(front.len() as int), ' ') matches Some((shown, rest))
            &&& number(shown, 4294967295) == Some(train.id as nat)
            &&& rest == train.depart + " -> "@ + train.arrive
        },
{
    if let Some(train) = first_in_time(trains) {
        let front = "AUTO SELECT: Train "@;
        let text = selection_text(trains);
        let shown = decimal(train.id as nat);
        let rest = train.depart + " -> "@ + train.arrive;
        reveal_strlit(" ");
        assert(" "@ =~= seq![' ']);
        assert(text.subrange(0, front.len() as int) =~= front);
        assert(text.skip(front.len() as int) =~= shown + seq![' '] + rest);
        lemma_decimal_digits(train.id as nat);
        assert forall|i: int| 0 <= i < shown.len() implies #[trigger] shown[i] != ' ' by {
            assert(is_digit(shown[i]));
        }
        lemma_cut_front(shown, ' ', rest);
        number_reads_decimal(train.id as nat, 4294967295);
    }
}

/// Every train has a line, in the order of the list, with its place, its number
/// and all that is said of it in full, each at least as wide as its column.
pub proof fn every_train_is_listed(trains: Seq<TrainView>, i: int)
    requires
        0 <= i < trains.len(),
    ensures
        list_lines(trains).len() == trains.len(),
        ({
            let line = list_lines(trains)[i];
            let train = trains[i];
            let place = padded(decimal((i + 1) as nat), 2);
            let id = padded(decimal(train.id as nat), 4);
            let depart = padded(train.depart, 5);
            let arrive = padded(train.arrive, 5);
            let time = padded(train.travel_time, 4);
            let a = place.len() as int;
            let b = a + 2 + id.len();
            let c = b + 1 + depart.len();
            let d = c + 1 + arrive.len();
            let e = d + 1 + time.len();
            &&& line.subrange(0, a) == place
            &&& line.subrange(a + 2, b) == id
            &&& line.subrange(b + 1, c) == depart
            &&& line.subrange(c + 1, d) == arrive
            &&& line.subrange(d + 1, e) == time
            &&& line.skip(e + 1) == train.discount_info
        }),
{
    reveal_strlit(". ");
    reveal_strlit(" ");
    reveal_strlit("~");
    let line = list_lines(trains)[i];
    let train = trains[i];
    let place = padded(decimal((i + 1) as nat), 2);
    let id = padded(decimal(train.id as nat), 4);
    let depart = padded(train.depart, 5);
    let arrive = padded(train.arrive, 5);
    let time = padded(train.travel_time, 4);
    let a = place.len() as int;
    let b = a + 2 + id.len();
    let c = b + 1 + depart.len();
    let d = c + 1 + arrive.len();
    let e = d + 1 + time.len();
    assert(line.subrange(0, a) =~= place);
    assert(line.subrange(a + 2, b) =~= id);
    assert(line.subrange(b + 1, c) =~= depart);
    assert(line.subrange(c + 1, d) =~= arrive);
    assert(line.subrange(d + 1, e) =~= time);
    assert(line.skip(e + 1) =~= train.discount_info);
}

} // verus!
