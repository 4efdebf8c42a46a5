//! The tables of the booking site: stations, departure times and ticket types.
use vstd::prelude::*;

verus! {

/// The stations from north to south; the site numbers them from 1.
pub const STATION_MAP: [&'static str; 12] = [
    "Nangang",
    "Taipei",
    "Banqiao",
    "Taoyuan",
    "Hsinchu",
    "Miaoli",
    "Taichung",
    "Changhua",
    "Yunlin",
    "Chiayi",
    "Tainan",
    "Zuoying",
];

/// The departure times as the site's form writes them. An entry is chosen by
/// its number, counted from 1: number 6 is 07:30.
pub const TIME_TABLE: [&'static str; 38] = [
    "1201A",
    "1230A",
    "600A",
    "630A",
    "700A",
    "730A",
    "800A",
    "830A",
    "900A",
    "930A",
    "1000A",
    "1030A",
    "1100A",
    "1130A",
    "1200N",
    "1230P",
    "100P",
    "130P",
    "200P",
    "230P",
    "300P",
    "330P",
    "400P",
    "430P",
    "500P",
    "530P",
    "600P",
    "630P",
    "700P",
    "730P",
    "800P",
    "830P",
    "900P",
    "930P",
    "1000P",
    "1030P",
    "1100P",
    "1130P",
];

/// The kinds of ticket.
#[derive(Clone, Copy, Debug, PartialEq, Eq, Structural)]
pub enum TicketType {
    Adult,
    Child,
    Disabled,
    Elder,
    College,
}

impl TicketType {
    /// The letter with which the site's form marks an amount of such tickets.
    pub open spec fn mark(self) -> char {
        match self {
            TicketType::Adult => 'F',
            TicketType::Child => 'H',
            TicketType::Disabled => 'W',
            TicketType::Elder => 'E',
            TicketType::College => 'P',
        }
    }

    /// The letter with which the site's form marks an amount of such tickets.
    pub fn letter(self) -> (r: char)
        ensures
            r == self.mark(),
    {
        match self {
            TicketType::Adult => 'F',
            TicketType::Child => 'H',
            TicketType::Disabled => 'W',
            TicketType::Elder => 'E',
            TicketType::College => 'P',
        }
    }
}

} // verus!
