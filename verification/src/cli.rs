//! What the program is told on its command line.
use vstd::prelude::*;

verus! {

/// The arguments of the program.
#[derive(Debug, Clone)]
pub struct Args {
    /// The personal ID of the first passenger.
    pub personal_id: Option<String>,
    /// Show the stations in place of booking.
    pub list_station: bool,
    /// Show the time table in place of booking.
    pub list_time_table: bool,
}

} // verus!
