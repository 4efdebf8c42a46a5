//! The page at the end of a booking, and what is told of it.
use vstd::prelude::*;
use vstd::string::*;
use crate::page::{find_texts, first_texts, found, read_text_at, text_at, texts_of};
use crate::text::{add_line, join, joined, pad_left, padded, trim, trimmed};

verus! {

/// What the last page says of the booking, as far as it says it.
#[derive(Debug)]
pub struct BookingResult {
    pub pnr_code: Option<String>,
    pub price: Option<String>,
    pub pay_before: Option<String>,
    pub depart_date: Option<String>,
    pub depart_time: Option<String>,
    pub arrive_time: Option<String>,
    pub depart_from: Option<String>,
    pub arrive_to: Option<String>,
    pub seats: Vec<String>,
    pub passenger_count: Option<String>,
    pub seat_type: Option<String>,
}

/// Reads the last page.
pub fn read_result(page: &str) -> (r: BookingResult)
    ensures
        r.pnr_code.deep_view() == text_at(page@, "p.pnr-code span"@),
        r.price.deep_view() == text_at(page@, "#setTrainTotalPriceValue"@),
        r.pay_before.deep_view() == text_at(page@, "span.status-unpaid span:nth-child(3)"@),
        r.depart_date.deep_view() == text_at(page@, "span.date span"@),
        r.depart_time.deep_view() == text_at(page@, "#setTrainDeparture0"@),
        r.arrive_time.deep_view() == text_at(page@, "#setTrainArrival0"@),
        r.depart_from.deep_view() == text_at(page@, "p.departure-stn span"@),
        r.arrive_to.deep_view() == text_at(page@, "p.arrival-stn span"@),
        r.seats.deep_view() == first_texts(found(page@, "div.seat-label span"@, seq![])),
        r.passenger_count.deep_view() == text_at(page@, "div.uk-accordion-content span"@),
        r.seat_type.deep_view() == text_at(page@, "p.info-data span"@),
{
    proof {
        reveal_strlit("p.pnr-code span");
        reveal_strlit("#setTrainTotalPriceValue");
        reveal_strlit("span.status-unpaid span:nth-child(3)");
        reveal_strlit("span.date span");
        reveal_strlit("#setTrainDeparture0");
        reveal_strlit("#setTrainArrival0");
        reveal_strlit("p.departure-stn span");
        reveal_strlit("p.arrival-stn span");
        reveal_strlit("div.seat-label span");
        reveal_strlit("div.uk-accordion-content span");
        reveal_strlit("p.info-data span");
    }
    BookingResult {
        pnr_code: read_text_at(page, "p.pnr-code span"),
        price: read_text_at(page, "#setTrainTotalPriceValue"),
        pay_before: read_text_at(page, "span.status-unpaid span:nth-child(3)"),
        depart_date: read_text_at(page, "span.date span"),
        depart_time: read_text_at(page, "#setTrainDeparture0"),
        arrive_time: read_text_at(page, "#setTrainArrival0"),
        depart_from: read_text_at(page, "p.departure-stn span"),
        arrive_to: read_text_at(page, "p.arrival-stn span"),
        seats: texts_of(&find_texts(page, "div.seat-label span")),
        passenger_count: read_text_at(page, "div.uk-accordion-content span"),
        seat_type: read_text_at(page, "p.info-data span"),
    }
}

/// A line with a label at its front, in columns.
pub open spec fn labelled(label: Seq<char>, text: Seq<char>) -> Seq<char> {
    padded(label, 7) + text
}

fn write_labelled(label: &str, text: &str) -> (r: String)
    ensures
        r@ == labelled(label@, text@),
{
    let mut s: String = pad_left(label, 7);
    s.append(text);
    s
}

fn add_labelled(list: &mut Vec<String>, label: &str, text: &str)
    ensures
        final(list).deep_view() == old(list).deep_view().push(labelled(label@, text@)),
{
    add_line(list, write_labelled(label, text).as_str());
}

impl BookingResult {
    /// The lines about the code.
    pub open spec fn code_lines(self) -> Option<Seq<Seq<char>>> {
        match self.pnr_code {
            Some(code) => Some(
                seq![
                    "\nPlease use the following PNR code for payment and picking up the ticket:"@,
                    "PNR Code: "@ + code@,
                ],
            ),
            None => None,
        }
    }

    /// The lines about the payment, and the heading of what follows.
    pub open spec fn price_lines(self) -> Option<Seq<Seq<char>>> {
        match (self.price, self.pay_before) {
            (Some(price), Some(pay_before)) => Some(
                seq![
                    "Price: "@ + price@ + ". Please pay before "@ + pay_before@,
                    "-------(Ticket Information)-------"@,
                ],
            ),
            _ => None,
        }
    }

    pub open spec fn date_lines(self) -> Option<Seq<Seq<char>>> {
        match self.depart_date {
            Some(date) => Some(seq![labelled("Date: "@, date@)]),
            None => None,
        }
    }

    pub open spec fn time_lines(self) -> Option<Seq<Seq<char>>> {
        match (self.depart_time, self.arrive_time) {
            (Some(depart), Some(arrive)) => Some(
                seq![labelled("Time: "@, depart@ + "~"@ + arrive@)],
            ),
            _ => None,
        }
    }

    pub open spec fn from_lines(self) -> Option<Seq<Seq<char>>> {
        match self.depart_from {
            Some(from) => Some(seq![labelled("From: "@, from@)]),
            None => None,
        }
    }

    pub open spec fn to_lines(self) -> Option<Seq<Seq<char>>> {
        match self.arrive_to {
            Some(to) => Some(seq![labelled("To: "@, to@)]),
            None => None,
        }
    }

    pub open spec fn seat_lines(self) -> Option<Seq<Seq<char>>> {
        match (self.passenger_count, self.seat_type) {
            (Some(count), Some(seat_type)) => Some(
                seq![
                    "Class: "@ + seat_type@ + count@,
                    "Seats: "@ + joined(self.seats.deep_view(), ", "@),
                ],
            ),
            _ => None,
        }
    }

    /// The groups of lines, in their order.
    pub open spec fn groups(self) -> Seq<Option<Seq<Seq<char>>>> {
        seq![
            self.code_lines(),
            self.price_lines(),
            self.date_lines(),
            self.time_lines(),
            self.from_lines(),
            self.to_lines(),
            self.seat_lines(),
        ]
    }

    /// The page says everything that is told of a booking.
    pub open spec fn is_complete(self) -> bool {
        &&& self.pnr_code is Some
        &&& self.price is Some
        &&& self.pay_before is Some
        &&& self.depart_date is Some
        &&& self.depart_time is Some
        &&& self.arrive_time is Some
        &&& self.depart_from is Some
        &&& self.arrive_to is Some
        &&& self.passenger_count is Some
        &&& self.seat_type is Some
    }
}

/// The lines of all groups before the first that is not there.
pub open spec fn lines_of_groups(groups: Seq<Option<Seq<Seq<char>>>>) -> Seq<Seq<char>>
    decreases groups.len(),
{
    if groups.len() == 0 || groups[0] is None {
        seq![]
    } else {
        groups[0].unwrap() + lines_of_groups(groups.drop_first())
    }
}

/// The message about a booking.
pub open spec fn success_text(
    code: Seq<char>,
    date: Seq<char>,
    depart: Seq<char>,
    arrive: Seq<char>,
    from: Seq<char>,
    to: Seq<char>,
    seat_type: Seq<char>,
    count: Seq<char>,
    seats: Seq<char>,
    price: Seq<char>,
    pay_before: Seq<char>,
) -> Seq<char> {
    "🎉 THSR 訂票成功！\n\nPNR Code："@ + code + "\n日期："@ + date + "\n時間："@ + depart + "~"@
        + arrive + "\n路線："@ + from + " → "@ + to + "\n車廂："@ + seat_type + count
        + "\n座位："@ + seats + "\n票價："@ + price + "\n付款期限："@ + pay_before
}

impl BookingResult {
    /// The message about a booking of which the page says everything.
    pub open spec fn told(self) -> Seq<char> {
        success_text(
            trimmed(self.pnr_code.unwrap()@),
            trimmed(self.depart_date.unwrap()@),
            trimmed(self.depart_time.unwrap()@),
            trimmed(self.arrive_time.unwrap()@),
            trimmed(self.depart_from.unwrap()@),
            trimmed(self.arrive_to.unwrap()@),
            trimmed(self.seat_type.unwrap()@),
            trimmed(self.passenger_count.unwrap()@),
            joined(self.seats.deep_view(), ", "@),
            trimmed(self.price.unwrap()@),
            trimmed(self.pay_before.unwrap()@),
        )
    }
}

fn trim_into(s: &mut String, text: &str)
    ensures
        final(s)@ == old(s)@ + trimmed(text@),
{
    s.append(trim(text));
}

impl BookingResult {
    fn write_code_lines(&self) -> (r: Option<Vec<String>>)
        ensures
            r.deep_view() == self.code_lines(),
    {
        match &self.pnr_code {
            Some(code) => {
                let mut s: String = "PNR Code: ".to_string();
                s.append(code.as_str());
                let mut list: Vec<String> = Vec::new();
                add_line(
                    &mut list,
                    "\nPlease use the following PNR code for payment and picking up the ticket:",
                );
                add_line(&mut list, s.as_str());
                assert(Some(list.deep_view()) == self.code_lines());
                Some(list)
            },
            None => None,
        }
    }

    fn write_price_lines(&self) -> (r: Option<Vec<String>>)
        ensures
            r.deep_view() == self.price_lines(),
    {
        match (&self.price, &self.pay_before) {
            (Some(price), Some(pay_before)) => {
                let mut s: String = "Price: ".to_string();
                s.append(price.as_str());
                s.append(". Please pay before ");
                s.append(pay_before.as_str());
                let mut list: Vec<String> = Vec::new();
                add_line(&mut list, s.as_str());
                add_line(&mut list, "-------(Ticket Information)-------");
                assert(Some(list.deep_view()) == self.price_lines());
                Some(list)
            },
            _ => None,
        }
    }

    fn write_time_lines(&self) -> (r: Option<Vec<String>>)
        ensures
            r.deep_view() == self.time_lines(),
    {
        match (&self.depart_time, &self.arrive_time) {
            (Some(depart), Some(arrive)) => {
                let mut s: String = depart.clone();
                s.append("~");
                s.append(arrive.as_str());
                let mut list: Vec<String> = Vec::new();
                add_labelled(&mut list, "Time: ", s.as_str());
                assert(Some(list.deep_view()) == self.time_lines());
                Some(list)
            },
            _ => None,
        }
    }

    fn write_seat_lines(&self) -> (r: Option<Vec<String>>)
        ensures
            r.deep_view() == self.seat_lines(),
    {
        match (&self.passenger_count, &self.seat_type) {
            (Some(count), Some(seat_type)) => {
                let mut class: String = "Class: ".to_string();
                class.append(seat_type.as_str());
                class.append(count.as_str());
                let mut seats: String = "Seats: ".to_string();
                seats.append(join(&self.seats, ", ").as_str());
                let mut list: Vec<String> = Vec::new();
                add_line(&mut list, class.as_str());
                add_line(&mut list, seats.as_str());
                assert(Some(list.deep_view()) == self.seat_lines());
                Some(list)
            },
            _ => None,
        }
    }

    /// The lines that tell of the booking, up to the first group of which the
    /// page does not say all.
    pub fn lines(&self) -> (r: Vec<String>)
        ensures
            r.deep_view() == lines_of_groups(self.groups()),
    {
        let mut groups: Vec<Option<Vec<String>>> = Vec::new();
        groups.push(self.write_code_lines());
        groups.push(self.write_price_lines());
        groups.push(labelled_line("Date: ", &self.depart_date));
        groups.push(self.write_time_lines());
        groups.push(labelled_line("From: ", &self.depart_from));
        groups.push(labelled_line("To: ", &self.arrive_to));
        groups.push(self.write_seat_lines());
        assert(groups.deep_view() =~= self.groups());
        join_groups(&groups)
    }

    /// The message about the booking; none where the page does not say all of
    /// it.
    pub fn message(&self) -> (r: Option<String>)
        ensures
            r is Some <==> self.is_complete(),
            r matches Some(text) ==> text@ == self.told(),
    {
        match (
            &self.pnr_code,
            &self.depart_date,
            &self.depart_time,
            &self.arrive_time,
            &self.depart_from,
            &self.arrive_to,
            &self.seat_type,
            &self.passenger_count,
            &self.price,
            &self.pay_before,
        ) {
            (
                Some(code),
                Some(date),
                Some(depart),
                Some(arrive),
                Some(from),
                Some(to),
                Some(seat_type),
                Some(count),
                Some(price),
                Some(pay_before),
            ) => {
                let mut s: String = "🎉 THSR 訂票成功！\n\nPNR Code：".to_string();
                trim_into(&mut s, code.as_str());
                s.append("\n日期：");
                trim_into(&mut s, date.as_str());
                s.append("\n時間：");
                trim_into(&mut s, depart.as_str());
                s.append("~");
                trim_into(&mut s, arrive.as_str());
                s.append("\n路線：");
                trim_into(&mut s, from.as_str());
                s.append(" → ");
                trim_into(&mut s, to.as_str());
                s.append("\n車廂：");
                trim_into(&mut s, seat_type.as_str());
                trim_into(&mut s, count.as_str());
                s.append("\n座位：");
                s.append(join(&self.seats, ", ").as_str());
                s.append("\n票價：");
                trim_into(&mut s, price.as_str());
                s.append("\n付款期限：");
                trim_into(&mut s, pay_before.as_str());
                Some(s)
            },
            _ => None,
        }
    }

    /// The code of the booking, without white space around it.
    pub fn code(&self) -> (r: Option<String>)
        ensures
            match self.pnr_code {
                Some(code) => {
                    &&& r matches Some(text)
                    &&& text@ == trimmed(code@)
                },
                None => r is None,
            },
    {
        match &self.pnr_code {
            Some(code) => Some(trim(code.as_str()).to_string()),
            None => None,
        }
    }
}

fn labelled_line(label: &str, text: &Option<String>) -> (r: Option<Vec<String>>)
    ensures
        r.deep_view() == (match text {
            Some(t) => Some(seq![labelled(label@, t@)]),
            None => None,
        }),
{
    match text {
        Some(t) => {
            let mut list: Vec<String> = Vec::new();
            add_labelled(&mut list, label, t.as_str());
            assert(list.deep_view() =~= seq![labelled(label@, t@)]);
            Some(list)
        },
        None => None,
    }
}

fn join_groups(groups: &Vec<Option<Vec<String>>>) -> (r: Vec<String>)
    ensures
        r.deep_view() == lines_of_groups(groups.deep_view()),
{
    let mut out: Vec<String> = Vec::new();
    let mut i: usize = 0;
    let ghost all = groups.deep_view();
    assert(all.skip(0) =~= all);
    assert(out.deep_view() =~= seq![]);
    assert(lines_of_groups(all) =~= out.deep_view() + lines_of_groups(all));
    while i < groups.len()
        invariant
            all == groups.deep_view(),
            i <= groups.len(),
            lines_of_groups(all) == out.deep_view() + lines_of_groups(all.skip(i as int)),
        decreases groups.len() - i,
    {
        let ghost before = out.deep_view();
        let ghost rest = all.skip(i as int);
        assert(rest[0] == groups@[i as int].deep_view());
        assert(rest.drop_first() =~= all.skip(i + 1));
        match &groups[i] {
            Some(group) => {
                add_lines(&mut out, group);
                assert(before + (group.deep_view() + lines_of_groups(all.skip(i + 1)))
                    =~= out.deep_view() + lines_of_groups(all.skip(i + 1)));
            },
            None => {
                assert(lines_of_groups(all) =~= out.deep_view());
                return out;
            },
        }
        i = i + 1;
    }
    assert(lines_of_groups(all) =~= out.deep_view());
    out
}

fn add_lines(out: &mut Vec<String>, lines: &Vec<String>)
    ensures
        final(out).deep_view() == old(out).deep_view() + lines.deep_view(),
{
    let mut i: usize = 0;
    let ghost before = out.deep_view();
    let ghost all = lines.deep_view();
    assert(before =~= before + all.subrange(0, 0));
    while i < lines.len()
        invariant
            all == lines.deep_view(),
            i <= lines.len(),
            out.deep_view() == before + all.subrange(0, i as int),
        decreases lines.len() - i,
    {
        add_line(out, lines[i].as_str());
        assert(before + all.subrange(0, i + 1) =~= (before + all.subrange(0, i as int)).push(
            lines@[i as int]@,
        ));
        i = i + 1;
    }
    assert(all.subrange(0, all.len() as int) =~= all);
}

/// Everything is told of a booking exactly where there is a message about it.
pub proof fn all_lines_where_complete(result: BookingResult)
    ensures
        result.is_complete() <==> forall|i: int|
            0 <= i < 7 ==> (#[trigger] result.groups()[i]) is Some,
        result.is_complete() ==> lines_of_groups(result.groups()).len() == 10,
{
    let g = result.groups();
    assert(g[0] == result.code_lines());
    assert(g[1] == result.price_lines());
    assert(g[2] == result.date_lines());
    assert(g[3] == result.time_lines());
    assert(g[4] == result.from_lines());
    assert(g[5] == result.to_lines());
    assert(g[6] == result.seat_lines());
    reveal_with_fuel(lines_of_groups, 8);
}

/// The message names everything that the page says of the booking: the code,
/// the day, the times, the stations, the class, every seat, the price and the
/// day by which it is to be paid, each where its heading is.
pub proof fn message_names_everything(result: BookingResult)
    requires
        result.is_complete(),
    ensures
        result.told() == "🎉 THSR 訂票成功！\n\nPNR Code："@ + trimmed(result.pnr_code.unwrap()@)
            + "\n日期："@ + trimmed(result.depart_date.unwrap()@) + "\n時間："@ + trimmed(
            result.depart_time.unwrap()@,
        ) + "~"@ + trimmed(result.arrive_time.unwrap()@) + "\n路線："@ + trimmed(
            result.depart_from.unwrap()@,
        ) + " → "@ + trimmed(result.arrive_to.unwrap()@) + "\n車廂："@ + trimmed(
            result.seat_type.unwrap()@,
        ) + trimmed(result.passenger_count.unwrap()@) + "\n座位："@ + joined(
            result.seats.deep_view(),
            ", "@,
        ) + "\n票價："@ + trimmed(result.price.unwrap()@) + "\n付款期限："@ + trimmed(
            result.pay_before.unwrap()@,
        ),
{
}

/// Of a page that says everything ten lines are told, each with its heading and
/// what the page says.
pub proof fn lines_tell_everything(result: BookingResult)
    requires
        result.is_complete(),
    ensures
        lines_of_groups(result.groups()) == seq![
            "\nPlease use the following PNR code for payment and picking up the ticket:"@,
            "PNR Code: "@ + result.pnr_code.unwrap()@,
            "Price: "@ + result.price.unwrap()@ + ". Please pay before "@
                + result.pay_before.unwrap()@,
            "-------(Ticket Information)-------"@,
            " Date: "@ + result.depart_date.unwrap()@,
            " Time: "@ + (result.depart_time.unwrap()@ + "~"@ + result.arrive_time.unwrap()@),
            " From: "@ + result.depart_from.unwrap()@,
            "   To: "@ + result.arrive_to.unwrap()@,
            "Class: "@ + result.seat_type.unwrap()@ + result.passenger_count.unwrap()@,
            "Seats: "@ + joined(result.seats.deep_view(), ", "@),
        ],
{
    reveal_strlit("Date: ");
    reveal_strlit("Time: ");
    reveal_strlit("From: ");
    reveal_strlit("To: ");
    reveal_strlit(" Date: ");
    reveal_strlit(" Time: ");
    reveal_strlit(" From: ");
    reveal_strlit("   To: ");
    assert(padded("Date: "@, 7) =~= " Date: "@);
    assert(padded("Time: "@, 7) =~= " Time: "@);
    assert(padded("From: "@, 7) =~= " From: "@);
    assert(padded("To: "@, 7) =~= "   To: "@);
    let g = result.groups();
    let g1 = g.drop_first();
    let g2 = g1.drop_first();
    let g3 = g2.drop_first();
    let g4 = g3.drop_first();
    let g5 = g4.drop_first();
    let g6 = g5.drop_first();
    assert(g6.drop_first() =~= seq![]);
    assert(lines_of_groups(g6.drop_first()) =~= seq![]);
    assert(lines_of_groups(g6) =~= g6[0].unwrap());
    assert(g6[0] == result.seat_lines());
    assert(g5[0] == result.to_lines());
    assert(g4[0] == result.from_lines());
    assert(g3[0] == result.time_lines());
    assert(g2[0] == result.date_lines());
    assert(g1[0] == result.price_lines());
    assert(g[0] == result.code_lines());
    assert(lines_of_groups(g5) == g5[0].unwrap() + lines_of_groups(g6));
    assert(lines_of_groups(g4) == g4[0].unwrap() + lines_of_groups(g5));
    assert(lines_of_groups(g3) == g3[0].unwrap() + lines_of_groups(g4));
    assert(lines_of_groups(g2) == g2[0].unwrap() + lines_of_groups(g3));
    assert(lines_of_groups(g1) == g1[0].unwrap() + lines_of_groups(g2));
    assert(lines_of_groups(g) == g[0].unwrap() + lines_of_groups(g1));
}

/// What is told stops before the first group of which the page does not say
/// all, whatever follows: the groups before it are told in full.
pub proof fn lines_stop_at_the_first_gap(
    told: Seq<Seq<Seq<char>>>,
    rest: Seq<Option<Seq<Seq<char>>>>,
)
    ensures
        lines_of_groups(
            told.map_values(|g: Seq<Seq<char>>| Some(g)) + seq![None::<Seq<Seq<char>>>] + rest,
        ) == told.flatten(),
        lines_of_groups(told.map_values(|g: Seq<Seq<char>>| Some(g))) == told.flatten(),
    decreases told.len(),
{
    let f = |g: Seq<Seq<char>>| Some(g);
    let some = told.map_values(f);
    let all = some + seq![None::<Seq<Seq<char>>>] + rest;
    if told.len() == 0 {
        assert(all[0] is None);
        assert(told.flatten() =~= seq![]);
    } else {
        let tail = told.drop_first();
        lines_stop_at_the_first_gap(tail, rest);
        assert(all[0] == Some(told[0]));
        assert(some[0] == Some(told[0]));
        assert(some.drop_first() =~= tail.map_values(f));
        assert(all.drop_first() =~= tail.map_values(f) + seq![None::<Seq<Seq<char>>>] + rest);
    }
}

} // verus!
