//! The attempts at a booking: what is said of them, and when there is another.
use vstd::prelude::*;
use vstd::string::*;
use crate::booking_flow::{FIXED_ADULTS, FIXED_DATE, FIXED_STUDENTS, FIXED_TIME_ID};
use crate::number::{decimal, number, number_reads_decimal, write_decimal};
use crate::page::{found, has_booking_result};
use crate::text::{add_line, all_space, only_white_space_trims_to_nothing, trim, trimmed};

verus! {

/// How long it is until the next attempt.
pub const FIXED_RETRY_SECONDS: u64 = 3;

/// The settings of the booking, on one line.
pub fn settings_line() -> (r: String)
    ensures
        r@ == "FIXED SETTINGS: Banqiao -> Taichung | date "@ + FIXED_DATE@
            + " | from 07:30 (TIME_TABLE ID "@ + decimal(FIXED_TIME_ID as nat) + ") | adults "@
            + decimal(FIXED_ADULTS as nat) + " | students "@ + decimal(FIXED_STUDENTS as nat)
            + " | seat any | class standard | membership off | retry "@ + decimal(
            FIXED_RETRY_SECONDS as nat,
        ) + "s"@,
{
    let mut s: String = "FIXED SETTINGS: Banqiao -> Taichung | date ".to_string();
    s.append(FIXED_DATE);
    s.append(" | from 07:30 (TIME_TABLE ID ");
    s.append(write_decimal(FIXED_TIME_ID as u128).as_str());
    s.append(") | adults ");
    s.append(write_decimal(FIXED_ADULTS as u128).as_str());
    s.append(" | students ");
    s.append(write_decimal(FIXED_STUDENTS as u128).as_str());
    s.append(" | seat any | class standard | membership off | retry ");
    s.append(write_decimal(FIXED_RETRY_SECONDS as u128).as_str());
    s.append("s");
    s
}

/// The title of an attempt, by its number.
pub open spec fn attempt_title(attempt: nat) -> Seq<char> {
    "THSR AUTO BOOKING - ATTEMPT "@ + decimal(attempt)
}

/// What is said before an attempt.
pub fn attempt_banner(attempt: u64) -> (r: Vec<String>)
    ensures
        r.deep_view() == seq![
            ""@,
            "================================="@,
            attempt_title(attempt as nat),
            "================================="@,
        ],
{
    let mut title: String = "THSR AUTO BOOKING - ATTEMPT ".to_string();
    title.append(write_decimal(attempt as u128).as_str());
    let mut list: Vec<String> = Vec::new();
    add_line(&mut list, "");
    add_line(&mut list, "=================================");
    add_line(&mut list, title.as_str());
    add_line(&mut list, "=================================");
    list
}

/// What follows an attempt.
#[derive(Debug)]
pub enum NextStep {
    /// The booking is made: this is said, and the page shows its code.
    Finish { notice: Vec<String>, page: String },
    /// It is not: this is said, and after the seconds there is another attempt.
    Retry { notice: Vec<String>, seconds: u64 },
}

/// What is said of the next attempt.
pub open spec fn retry_text() -> Seq<char> {
    "Retrying in "@ + decimal(FIXED_RETRY_SECONDS as nat) + " seconds..."@
}

fn add_retry(list: &mut Vec<String>)
    ensures
        final(list).deep_view() == old(list).deep_view().push(retry_text()),
{
    let mut s: String = "Retrying in ".to_string();
    s.append(write_decimal(FIXED_RETRY_SECONDS as u128).as_str());
    s.append(" seconds...");
    add_line(list, s.as_str());
}

/// What follows an attempt that ended on a page or in an error, and whether the
/// page has a code: only a page with a code ends the attempts.
pub open spec fn follows(r: NextStep, result: Result<String, String>, has_code: bool) -> bool {
    match result {
        Ok(last) => if has_code {
            &&& r matches NextStep::Finish { notice, page }
            &&& page == last
            &&& notice.deep_view() == seq![
                "================================="@,
                "BOOKING SUCCESS!"@,
                "================================="@,
            ]
        } else {
            &&& r matches NextStep::Retry { notice, seconds }
            &&& seconds == FIXED_RETRY_SECONDS
            &&& notice.deep_view() == seq![
                "Booking flow finished without a PNR. The site may have rejected the request."@,
                retry_text(),
            ]
        },
        Err(error) => {
            &&& r matches NextStep::Retry { notice, seconds }
            &&& seconds == FIXED_RETRY_SECONDS
            &&& notice.deep_view() == seq!["Booking attempt failed: "@ + error@, retry_text()]
        },
    }
}

/// What follows an attempt, given whether its page has a code.
pub fn next_step(result: Result<String, String>, has_code: bool) -> (r: NextStep)
    ensures
        follows(r, result, has_code),
        r is Finish <==> result is Ok && has_code,
{
    let mut notice: Vec<String> = Vec::new();
    match result {
        Ok(page) => {
            if has_code {
                add_line(&mut notice, "=================================");
                add_line(&mut notice, "BOOKING SUCCESS!");
                add_line(&mut notice, "=================================");
                assert(notice.deep_view() =~= seq![
                    "================================="@,
                    "BOOKING SUCCESS!"@,
                    "================================="@,
                ]);
                NextStep::Finish { notice, page }
            } else {
                add_line(
                    &mut notice,
                    "Booking flow finished without a PNR. The site may have rejected the request.",
                );
                add_retry(&mut notice);
                assert(notice.deep_view() =~= seq![
                    "Booking flow finished without a PNR. The site may have rejected the request."@,
                    retry_text(),
                ]);
                NextStep::Retry { notice, seconds: FIXED_RETRY_SECONDS }
            }
        },
        Err(error) => {
            let mut s: String = "Booking attempt failed: ".to_string();
            s.append(error.as_str());
            add_line(&mut notice, s.as_str());
            add_retry(&mut notice);
            assert(notice.deep_view() =~= seq!["Booking attempt failed: "@ + error@, retry_text()]);
            NextStep::Retry { notice, seconds: FIXED_RETRY_SECONDS }
        },
    }
}

/// What follows an attempt: the attempts end with a page that shows a booking
/// code, and with nothing else.
pub fn after_attempt(result: Result<String, String>) -> (r: NextStep)
    ensures
        follows(
            r,
            result,
            match result {
                Ok(page) => found(page@, "p.pnr-code span"@, seq![]).len() > 0,
                Err(_) => false,
            },
        ),
        r is Finish <==> result is Ok && found(result.unwrap()@, "p.pnr-code span"@, seq![]).len()
            > 0,
{
    let has_code: bool = match &result {
        Ok(page) => has_booking_result(page.as_str()),
        Err(_) => false,
    };
    next_step(result, has_code)
}

/// How far an attempt has come.
#[derive(Debug)]
pub enum Progress {
    /// The first page is to be asked for, and its form sent.
    Book,
    /// A train is to be taken off this page.
    TakeTrain { page: String },
    /// The booking is to be closed on this page.
    Close { page: String },
    /// The attempt is over, on a page or in an error.
    Ended { result: Result<String, String> },
}

/// How far an attempt has come when a stage has ended: an error ends it, and
/// the page that a stage ends on is the page of the next.
pub open spec fn progress_after(progress: Progress, result: Result<String, String>) -> Progress {
    match (progress, result) {
        (Progress::Ended { .. }, _) => progress,
        (_, Err(error)) => Progress::Ended { result: Err(error) },
        (Progress::Book, Ok(page)) => Progress::TakeTrain { page },
        (Progress::TakeTrain { .. }, Ok(page)) => Progress::Close { page },
        (Progress::Close { .. }, Ok(page)) => Progress::Ended { result: Ok(page) },
    }
}

impl Progress {
    /// How far the attempt has come when a stage has ended on a page or in an
    /// error.
    pub fn advance(self, result: Result<String, String>) -> (r: Progress)
        ensures
            r == progress_after(self, result),
    {
        match (self, result) {
            (Progress::Ended { result }, _) => Progress::Ended { result },
            (_, Err(error)) => Progress::Ended { result: Err(error) },
            (Progress::Book, Ok(page)) => Progress::TakeTrain { page },
            (Progress::TakeTrain { .. }, Ok(page)) => Progress::Close { page },
            (Progress::Close { .. }, Ok(page)) => Progress::Ended { result: Ok(page) },
        }
    }
}

/// An attempt books, takes a train on the page that this ends on, and closes
/// the booking on the page that this ends on. The first error ends it; without
/// one it ends on the page of the last stage.
pub proof fn stages_follow_each_other(
    booked: Result<String, String>,
    taken: Result<String, String>,
    closed: Result<String, String>,
)
    ensures
        ({
            let first = progress_after(Progress::Book, booked);
            let second = progress_after(first, taken);
            let third = progress_after(second, closed);
            match (booked, taken) {
                (Err(_), _) => first == (Progress::Ended { result: booked }) && third == first,
                (Ok(page), Err(_)) => {
                    &&& first == (Progress::TakeTrain { page })
                    &&& second == (Progress::Ended { result: taken })
                    &&& third == second
                },
                (Ok(page), Ok(next)) => {
                    &&& first == (Progress::TakeTrain { page })
                    &&& second == (Progress::Close { page: next })
                    &&& third == (Progress::Ended { result: closed })
                },
            }
        }),
{
}

/// What a typed line stands for: the default where it is white space, and where
/// it cannot be read.
pub fn input_or_default<T>(line: &str, read: Option<T>, default: T) -> (r: T)
    ensures
        r == (if trimmed(line@).len() == 0 {
            default
        } else {
            match read {
                Some(value) => value,
                None => default,
            }
        }),
        all_space(line@) || read is None ==> r == default,
        !all_space(line@) ==> (read matches Some(value) ==> r == value),
{
    proof {
        only_white_space_trims_to_nothing(line@);
    }
    if trim(line).is_empty() {
        return default;
    }
    match read {
        Some(value) => value,
        None => default,
    }
}

/// The attempts end exactly with a page that has a code, and on that page.
/// Everything else is followed by another attempt after three seconds: a page
/// without a code, and every error, whatever it says; of an error it is told.
pub proof fn attempts_end_only_with_a_code(
    step: NextStep,
    result: Result<String, String>,
    has_code: bool,
)
    requires
        follows(step, result, has_code),
    ensures
        match step {
            NextStep::Finish { page, .. } => {
                &&& has_code
                &&& result == Result::<String, String>::Ok(page)
            },
            NextStep::Retry { notice, seconds } => {
                &&& seconds == 3
                &&& match result {
                    Ok(_) => !has_code,
                    Err(error) => {
                        let told = notice.deep_view()[0];
                        &&& notice.deep_view().len() == 2
                        &&& told.len() == "Booking attempt failed: "@.len() + error@.len()
                        &&& told.skip("Booking attempt failed: "@.len() as int) == error@
                    },
                }
            },
        },
{
    if let NextStep::Retry { notice, .. } = step {
        if let Err(error) = result {
            assert(notice.deep_view()[0].skip("Booking attempt failed: "@.len() as int) =~= error@);
        }
    }
}

/// Whatever an attempt ended with, something follows, and nothing else can: two
/// steps that follow the same end are of the same kind, on the same page.
pub proof fn what_follows_is_one_thing(
    a: NextStep,
    b: NextStep,
    result: Result<String, String>,
    has_code: bool,
)
    requires
        follows(a, result, has_code),
        follows(b, result, has_code),
    ensures
        match (a, b) {
            (
                NextStep::Finish { notice, page },
                NextStep::Finish { notice: other, page: last },
            ) => page == last && notice.deep_view() == other.deep_view(),
            (
                NextStep::Retry { notice, seconds },
                NextStep::Retry { notice: other, seconds: later },
            ) => seconds == later && notice.deep_view() == other.deep_view(),
            _ => false,
        },
{
}

/// The number of an attempt is read back off its title.
pub proof fn title_names_the_attempt(attempt: nat)
    ensures
        number(
            attempt_title(attempt).skip("THSR AUTO BOOKING - ATTEMPT "@.len() as int),
            attempt,
        ) == Some(attempt),
{
    assert(attempt_title(attempt).skip("THSR AUTO BOOKING - ATTEMPT "@.len() as int) =~= decimal(
        attempt,
    ));
    number_reads_decimal(attempt, attempt);
}

} // verus!
